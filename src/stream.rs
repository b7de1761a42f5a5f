//! What the decoder makes of a whole byte stream, and the laws it obeys.
use vstd::prelude::*;

use crate::number::{decimal, is_number_text};
use crate::value_parsing::{
    byte_char, close_token, record_name, fresh_state, step, Outcome, ParserState, Record, COLON, COMMA, NEWLINE,
    SPACE, TAB,
};

verus! {

/// The decoder's state after a stream, with every sample that it handed out
/// and the number of tokens that it reported as invalid.
pub struct Feed {
    pub state: ParserState,
    pub records: Seq<Record>,
    pub invalid: nat,
}

pub open spec fn outcome_records(o: Outcome) -> Seq<Record> {
    match o {
        Outcome::Line(r) => r,
        _ => Seq::empty(),
    }
}

pub open spec fn outcome_invalid(o: Outcome) -> nat {
    if o is Invalid {
        1
    } else {
        0
    }
}

/// Feeds `bytes` to a decoder in state `p`, one byte after the other.
pub open spec fn feed(p: ParserState, bytes: Seq<u8>) -> Feed
    decreases bytes.len(),
{
    if bytes.len() == 0 {
        Feed { state: p, records: Seq::empty(), invalid: 0 }
    } else {
        let f = feed(p, bytes.drop_last());
        let (q, o) = step(f.state, bytes.last());
        Feed {
            state: q,
            records: f.records + outcome_records(o),
            invalid: f.invalid + outcome_invalid(o),
        }
    }
}

/// Feeding a stream in two parts, the second from where the first left the
/// decoder, hands out the same samples in the same order, reports the same
/// invalid tokens and ends in the same state as feeding it whole. By
/// induction, so does feeding it in any number of chunks, down to single bytes.
pub proof fn lemma_feed_in_chunks(p: ParserState, a: Seq<u8>, b: Seq<u8>)
    ensures
        feed(p, a + b) == (Feed {
            state: feed(feed(p, a).state, b).state,
            records: feed(p, a).records + feed(feed(p, a).state, b).records,
            invalid: feed(p, a).invalid + feed(feed(p, a).state, b).invalid,
        }),
    decreases b.len(),
{
    if b.len() == 0 {
        assert(a + b =~= a);
        assert(feed(p, a).records + Seq::<Record>::empty() =~= feed(p, a).records);
    } else {
        assert((a + b).drop_last() =~= a + b.drop_last());
        assert((a + b).last() == b.last());
        lemma_feed_in_chunks(p, a, b.drop_last());
        let fa = feed(p, a);
        let fb = feed(fa.state, b.drop_last());
        let o = step(fb.state, b.last()).1;
        assert(fa.records + fb.records + outcome_records(o) =~= fa.records + (fb.records
            + outcome_records(o)));
    }
}

/// Feeding the chunks of `chunks` one after the other.
pub open spec fn feed_chunks(p: ParserState, chunks: Seq<Seq<u8>>) -> Feed
    decreases chunks.len(),
{
    if chunks.len() == 0 {
        Feed { state: p, records: Seq::empty(), invalid: 0 }
    } else {
        let f = feed_chunks(p, chunks.drop_last());
        let g = feed(f.state, chunks.last());
        Feed { state: g.state, records: f.records + g.records, invalid: f.invalid + g.invalid }
    }
}

/// However a stream is cut into chunks, feeding the chunks one after the other
/// gives what feeding the stream byte by byte gives.
pub proof fn lemma_chunking_is_invisible(p: ParserState, chunks: Seq<Seq<u8>>)
    ensures
        feed_chunks(p, chunks) == feed(p, chunks.flatten()),
    decreases chunks.len(),
{
    if chunks.len() == 0 {
        assert(chunks.flatten() =~= Seq::<u8>::empty());
    } else {
        lemma_chunking_is_invisible(p, chunks.drop_last());
        chunks.lemma_flatten_and_flatten_alt_are_equivalent();
        chunks.drop_last().lemma_flatten_and_flatten_alt_are_equivalent();
        assert(chunks.flatten_alt() =~= chunks.drop_last().flatten_alt() + chunks.last());
        lemma_feed_in_chunks(p, chunks.drop_last().flatten(), chunks.last());
    }
}


/// A token as written on the wire: an optional name, then the value.
pub struct Token {
    pub name: Option<Seq<u8>>,
    pub value: Seq<u8>,
}

/// The characters that the decoder takes `bs` for.
pub open spec fn chars_of(bs: Seq<u8>) -> Seq<char> {
    bs.map_values(|b: u8| byte_char(b))
}

/// A byte that has no special meaning to the decoder.
pub open spec fn is_plain(b: u8) -> bool {
    b != NEWLINE && b != COMMA && b != COLON && b != SPACE && b != TAB
}

pub open spec fn all_plain(bs: Seq<u8>) -> bool {
    forall|i: int| 0 <= i < bs.len() ==> is_plain(#[trigger] bs[i])
}

/// A token whose name and value hold only plain bytes, and whose value is a literal.
pub open spec fn well_formed(t: Token) -> bool {
    &&& t.name is Some ==> all_plain(t.name->0)
    &&& all_plain(t.value)
    &&& is_number_text(chars_of(t.value))
}

pub open spec fn token_bytes(t: Token) -> Seq<u8> {
    match t.name {
        Some(n) => n + seq![COLON] + t.value,
        None => t.value,
    }
}

/// The tokens written one after the other, separated by commas.
pub open spec fn tokens_bytes(ts: Seq<Token>) -> Seq<u8>
    decreases ts.len(),
{
    if ts.len() == 0 {
        Seq::empty()
    } else if ts.len() == 1 {
        token_bytes(ts[0])
    } else {
        tokens_bytes(ts.drop_last()) + seq![COMMA] + token_bytes(ts.last())
    }
}

/// A whole line: the tokens, then `\n`.
pub open spec fn line_bytes(ts: Seq<Token>) -> Seq<u8> {
    tokens_bytes(ts) + seq![NEWLINE]
}

/// The sample of the token at `i` on its line: its own name where it has a
/// non-empty one, else its position.
pub open spec fn expected_record(ts: Seq<Token>, i: int) -> Record {
    let t = ts[i];
    (
        if t.name is Some && t.name->0.len() > 0 {
            chars_of(t.name->0)
        } else {
            decimal(i as nat)
        },
        chars_of(t.value),
    )
}

pub open spec fn expected_records(ts: Seq<Token>) -> Seq<Record> {
    Seq::new(ts.len(), |i: int| expected_record(ts, i))
}

proof fn lemma_feed_one(p: ParserState, b: u8)
    ensures
        feed(p, seq![b]) == (Feed {
            state: step(p, b).0,
            records: outcome_records(step(p, b).1),
            invalid: outcome_invalid(step(p, b).1),
        }),
{
    assert(seq![b].drop_last() =~= Seq::<u8>::empty());
    assert(feed(p, Seq::<u8>::empty()).records + outcome_records(step(p, b).1) =~= outcome_records(
        step(p, b).1,
    ));
}

/// Plain bytes go into the pending value and nothing else changes.
proof fn lemma_feed_plain(p: ParserState, bs: Seq<u8>)
    requires
        all_plain(bs),
    ensures
        feed(p, bs) == (Feed {
            state: ParserState { value: p.value + chars_of(bs), ..p },
            records: Seq::empty(),
            invalid: 0,
        }),
    decreases bs.len(),
{
    if bs.len() == 0 {
        assert(p.value + chars_of(bs) =~= p.value);
        assert(ParserState { value: p.value + chars_of(bs), ..p } == p);
    } else {
        let init = bs.drop_last();
        assert(all_plain(init)) by {
            assert forall|i: int| 0 <= i < init.len() implies is_plain(#[trigger] init[i]) by {
                assert(init[i] == bs[i]);
            }
        }
        lemma_feed_plain(p, init);
        assert(is_plain(bs[bs.len() - 1]));
        let b = bs.last();
        assert(is_plain(b));
        let q = ParserState { value: p.value + chars_of(init), ..p };
        assert(step(q, b).0 == ParserState { value: q.value.push(byte_char(b)), ..q });
        assert(q.value.push(byte_char(b)) =~= p.value + chars_of(bs));
        assert(Seq::<Record>::empty() + Seq::<Record>::empty() =~= Seq::<Record>::empty());
    }
}

/// From a state with nothing pending, a token's bytes leave its name and
/// value pending.
proof fn lemma_feed_token(c: Seq<Record>, t: Token)
    requires
        t.name is Some ==> all_plain(t.name->0),
        all_plain(t.value),
    ensures
        feed(ParserState { name: None, value: Seq::empty(), completed: c }, token_bytes(t)) == (Feed {
            state: ParserState {
                name: match t.name {
                    Some(n) => Some(chars_of(n)),
                    None => None,
                },
                value: chars_of(t.value),
                completed: c,
            },
            records: Seq::empty(),
            invalid: 0,
        }),
{
    let p = ParserState { name: None, value: Seq::empty(), completed: c };
    match t.name {
        Some(n) => {
            lemma_feed_in_chunks(p, n + seq![COLON], t.value);
            lemma_feed_in_chunks(p, n, seq![COLON]);
            lemma_feed_plain(p, n);
            let q = ParserState { value: p.value + chars_of(n), ..p };
            lemma_feed_one(q, COLON);
            assert(q.value =~= chars_of(n));
            let r = ParserState { name: Some(chars_of(n)), value: Seq::empty(), completed: c };
            assert(feed(q, seq![COLON]).state == r);
            lemma_feed_plain(r, t.value);
            assert(r.value + chars_of(t.value) =~= chars_of(t.value));
            assert(Seq::<Record>::empty() + Seq::<Record>::empty() =~= Seq::<Record>::empty());
        },
        None => {
            lemma_feed_plain(p, t.value);
            assert(p.value + chars_of(t.value) =~= chars_of(t.value));
        },
    }
}

/// After the bytes of well-formed tokens, all but the last are decoded and
/// the last one is pending.
proof fn lemma_feed_tokens(ts: Seq<Token>)
    requires
        ts.len() > 0,
        forall|i: int| 0 <= i < ts.len() ==> well_formed(#[trigger] ts[i]),
    ensures
        feed(fresh_state(), tokens_bytes(ts)) == (Feed {
            state: ParserState {
                name: match ts.last().name {
                    Some(n) => Some(chars_of(n)),
                    None => None,
                },
                value: chars_of(ts.last().value),
                completed: expected_records(ts.drop_last()),
            },
            records: Seq::empty(),
            invalid: 0,
        }),
    decreases ts.len(),
{
    assert(well_formed(ts[ts.len() - 1]));
    if ts.len() == 1 {
        assert(expected_records(ts.drop_last()) =~= Seq::<Record>::empty());
        lemma_feed_token(Seq::empty(), ts[0]);
    } else {
        let init = ts.drop_last();
        assert forall|i: int| 0 <= i < init.len() implies well_formed(#[trigger] init[i]) by {
            assert(init[i] == ts[i]);
        }
        lemma_feed_tokens(init);
        let f = feed(fresh_state(), tokens_bytes(init));
        let pending = f.state;
        let closed = close_token(pending);
        assert(closed.completed =~= expected_records(ts.drop_last())) by {
            assert(init.drop_last() =~= ts.drop_last().drop_last());
            assert(expected_record(init, init.len() - 1) == (record_name(pending), pending.value));
            assert forall|i: int| 0 <= i < init.len() - 1 implies expected_record(init.drop_last(), i)
                == expected_record(ts.drop_last(), i) by {}
        }
        lemma_feed_in_chunks(fresh_state(), tokens_bytes(init) + seq![COMMA], token_bytes(ts.last()));
        lemma_feed_in_chunks(fresh_state(), tokens_bytes(init), seq![COMMA]);
        lemma_feed_one(pending, COMMA);
        assert(feed(pending, seq![COMMA]).state == closed);
        assert(feed(pending, seq![COMMA]).records =~= Seq::<Record>::empty());
        lemma_feed_token(closed.completed, ts.last());
        assert(Seq::<Record>::empty() + Seq::<Record>::empty() =~= Seq::<Record>::empty());
    }
}

/// A line of well-formed tokens, fed to a decoder at the start of a line,
/// gives exactly one sample per token, in order: each carries the token's
/// own name where it has a non-empty one and else its position on the line,
/// and the token's literal. The decoder is then back at the start of a line,
/// and nothing was reported invalid. An empty line gives no sample.
pub proof fn lemma_line_decodes(ts: Seq<Token>)
    requires
        forall|i: int| 0 <= i < ts.len() ==> well_formed(#[trigger] ts[i]),
    ensures
        feed(fresh_state(), line_bytes(ts)) == (Feed {
            state: fresh_state(),
            records: expected_records(ts),
            invalid: 0,
        }),
{
    let bytes = line_bytes(ts);
    assert(bytes.drop_last() =~= tokens_bytes(ts));
    assert(bytes.last() == NEWLINE);
    if ts.len() == 0 {
        assert(tokens_bytes(ts) =~= Seq::<u8>::empty());
        assert(!is_number_text(Seq::<char>::empty())) by {
            assert(!crate::number::is_mantissa(Seq::<char>::empty().take(0)));
        }
        assert(expected_records(ts) =~= Seq::<Record>::empty());
        assert(Seq::<Record>::empty() + Seq::<Record>::empty() =~= Seq::<Record>::empty());
    } else {
        lemma_feed_tokens(ts);
        let pending = feed(fresh_state(), tokens_bytes(ts)).state;
        assert(well_formed(ts[ts.len() - 1]));
        assert(close_token(pending).completed =~= expected_records(ts));
        assert(Seq::<Record>::empty() + expected_records(ts) =~= expected_records(ts));
    }
}


/// A token whose value is not a literal, ended by a comma, is skipped: from a
/// state with no token pending, it leaves the decoder as it found it and is
/// reported once as invalid, so whatever follows it on the line, and on later
/// lines, decodes as if it had not been there.
pub proof fn lemma_malformed_token_skipped(c: Seq<Record>, t: Token, rest: Seq<u8>)
    requires
        t.name is Some ==> all_plain(t.name->0),
        all_plain(t.value),
        !is_number_text(chars_of(t.value)),
    ensures
        ({
            let p = ParserState { name: None, value: Seq::empty(), completed: c };
            feed(p, token_bytes(t) + seq![COMMA] + rest) == (Feed {
                state: feed(p, rest).state,
                records: feed(p, rest).records,
                invalid: 1 + feed(p, rest).invalid,
            })
        }),
{
    let p = ParserState { name: None, value: Seq::empty(), completed: c };
    lemma_feed_in_chunks(p, token_bytes(t) + seq![COMMA], rest);
    lemma_feed_in_chunks(p, token_bytes(t), seq![COMMA]);
    lemma_feed_token(c, t);
    let pending = feed(p, token_bytes(t)).state;
    lemma_feed_one(pending, COMMA);
    assert(close_token(pending) == p);
    assert(Seq::<Record>::empty() + Seq::<Record>::empty() =~= Seq::<Record>::empty());
    assert(Seq::<Record>::empty() + feed(p, rest).records =~= feed(p, rest).records);
}


/// On a line of well-formed tokens none of which is named, the sample of the
/// token at position `i` is named by the decimal numeral of `i`.
pub proof fn lemma_unnamed_tokens_numbered(ts: Seq<Token>)
    requires
        forall|i: int| 0 <= i < ts.len() ==> well_formed(#[trigger] ts[i]) && ts[i].name is None,
    ensures
        feed(fresh_state(), line_bytes(ts)).records.len() == ts.len(),
        forall|i: int|
            0 <= i < ts.len() ==> #[trigger] feed(fresh_state(), line_bytes(ts)).records[i] == (
                decimal(i as nat),
                chars_of(ts[i].value),
            ),
{
    lemma_line_decodes(ts);
}

/// A line terminator alone gives a line without samples.
pub proof fn lemma_empty_line()
    ensures
        feed(fresh_state(), seq![NEWLINE]) == (Feed {
            state: fresh_state(),
            records: Seq::empty(),
            invalid: 0,
        }),
{
    let ts = Seq::<Token>::empty();
    assert(line_bytes(ts) =~= seq![NEWLINE]);
    lemma_line_decodes(ts);
    assert(expected_records(ts) =~= Seq::<Record>::empty());
}


/// Every sample in `rs` has a non-empty name.
pub open spec fn names_non_empty(rs: Seq<Record>) -> bool {
    forall|i: int| 0 <= i < rs.len() ==> (#[trigger] rs[i]).0.len() > 0
}

/// Every sample that the decoder hands out has a non-empty name, as long as
/// those already decoded on the pending line have one, which holds from the
/// start of every line.
pub proof fn lemma_names_non_empty(p: ParserState, bytes: Seq<u8>)
    requires
        names_non_empty(p.completed),
    ensures
        names_non_empty(feed(p, bytes).records),
        names_non_empty(feed(p, bytes).state.completed),
    decreases bytes.len(),
{
    if bytes.len() > 0 {
        lemma_names_non_empty(p, bytes.drop_last());
        let f = feed(p, bytes.drop_last());
        let c = close_token(f.state);
        assert(decimal(f.state.completed.len()).len() > 0);
        assert(names_non_empty(c.completed)) by {
            if is_number_text(f.state.value) {
                assert forall|i: int| 0 <= i < c.completed.len() implies (
                #[trigger] c.completed[i]).0.len() > 0 by {
                    if i < f.state.completed.len() {
                        assert(c.completed[i] == f.state.completed[i]);
                    }
                }
            }
        }
        let (q, o) = step(f.state, bytes.last());
        assert(names_non_empty(q.completed));
        assert forall|i: int| 0 <= i < feed(p, bytes).records.len() implies (
        #[trigger] feed(p, bytes).records[i]).0.len() > 0 by {
            if i >= f.records.len() {
                assert(feed(p, bytes).records[i] == outcome_records(o)[i - f.records.len()]);
            } else {
                assert(feed(p, bytes).records[i] == f.records[i]);
            }
        }
    }
}

}
