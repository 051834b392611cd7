use ipa_core::store::{apply_command, RendezvousTable, StoreCommand};

#[test]
fn write_then_read_returns_payload() {
    let mut t = RendezvousTable::new();
    let ousted = t.write(42, vec![1, 2, 3]);
    assert_eq!(ousted, None);
    let read = t.remove(42);
    assert_eq!(read, Some(vec![1, 2, 3]));
    // A successful read consumes the entry.
    assert_eq!(t.remove(42), None);
}

#[test]
fn read_before_write_finds_nothing() {
    // The synchronous table reports the missing key; the async actor
    // around it is what suspends the reader until a write arrives.
    let mut t = RendezvousTable::new();
    assert_eq!(t.remove(7), None);
    t.write(7, vec![9]);
    assert_eq!(t.remove(7), Some(vec![9]));
}

#[test]
fn double_write_ousts_first_value() {
    let mut t = RendezvousTable::new();
    assert_eq!(t.write(5, vec![10]), None);
    // The second write reports the first payload, letting the caller
    // detect the protocol violation.
    assert_eq!(t.write(5, vec![20]), Some(vec![10]));
    assert_eq!(t.remove(5), Some(vec![20]));
}

#[test]
fn distinct_keys_are_independent() {
    let mut t = RendezvousTable::new();
    t.write(1, vec![1]);
    t.write(2, vec![2]);
    t.write(3, vec![3]);
    assert_eq!(t.remove(2), Some(vec![2]));
    assert_eq!(t.remove(1), Some(vec![1]));
    assert_eq!(t.remove(3), Some(vec![3]));
}

#[test]
fn commands_drive_the_table() {
    let mut t = RendezvousTable::new();
    assert_eq!(apply_command(&mut t, StoreCommand::Write(9, vec![4, 5])), None);
    assert_eq!(
        apply_command(&mut t, StoreCommand::Write(9, vec![6])),
        Some(vec![4, 5])
    );
    assert_eq!(apply_command(&mut t, StoreCommand::Remove(9)), Some(vec![6]));
    assert_eq!(apply_command(&mut t, StoreCommand::Remove(9)), None);
}
