use serialplotter::serial_source::{ReadOutcome, SerialSource, MAX_READ};
use serialplotter::value_parsing::{Commands, DataValue};

fn decode_in_chunks(data: &[u8], chunk: usize) -> (Vec<DataValue>, usize) {
    let mut source = SerialSource::new();
    let mut records = Vec::new();
    let mut invalid = 0;
    for part in data.chunks(chunk) {
        let decoded = source.on_read(ReadOutcome::Data(part.to_vec()));
        records.extend(decoded.records);
        invalid += decoded.invalid;
    }
    (records, invalid)
}

#[test]
fn chunk_size_does_not_change_records() {
    let data = b"X:1,Y:2\n3,4\nbad,5\n,\nZ:1e3\n6";
    let (whole, whole_invalid) = decode_in_chunks(data, data.len());
    assert_eq!(whole.len(), 6);
    for chunk in 1..data.len() {
        let (records, invalid) = decode_in_chunks(data, chunk);
        assert_eq!(records, whole);
        assert_eq!(invalid, whole_invalid);
    }
    assert_eq!(whole_invalid, 2);
}

#[test]
fn read_size_is_clamped() {
    assert_eq!(SerialSource::read_size(0), 1);
    assert_eq!(SerialSource::read_size(1), 1);
    assert_eq!(SerialSource::read_size(17), 17);
    assert_eq!(SerialSource::read_size(1024), MAX_READ);
    assert_eq!(SerialSource::read_size(5000), MAX_READ);
}

#[test]
fn stop_ends_the_session() {
    let mut source = SerialSource::new();
    assert!(source.is_running());
    assert_eq!(source.on_command(Commands::Stop), None);
    assert!(!source.is_running());
}

#[test]
fn send_message_gives_its_bytes() {
    let mut source = SerialSource::new();
    let bytes = source.on_command(Commands::SendMessage("go é\n".to_string()));
    assert_eq!(bytes, Some("go é\n".as_bytes().to_vec()));
    assert!(source.is_running());
}

#[test]
fn transient_read_changes_nothing() {
    let mut source = SerialSource::new();
    let first = source.on_read(ReadOutcome::Data(b"1,".to_vec()));
    assert!(first.records.is_empty());
    let none = source.on_read(ReadOutcome::Transient);
    assert!(none.records.is_empty());
    assert!(source.is_running());
    let rest = source.on_read(ReadOutcome::Data(b"2\n".to_vec()));
    assert_eq!(rest.records.len(), 2);
}

#[test]
fn failed_read_ends_the_session() {
    let mut source = SerialSource::new();
    let decoded = source.on_read(ReadOutcome::Failed);
    assert!(decoded.records.is_empty());
    assert!(!source.is_running());
}

#[test]
fn failed_send_or_write_ends_the_session() {
    let mut a = SerialSource::new();
    a.on_send_failed();
    assert!(!a.is_running());
    let mut b = SerialSource::new();
    b.on_write_failed();
    assert!(!b.is_running());
}
