use batch_step::ItemReader;
use batch_step::Process;
use batch_step::Reader;
use batch_step::User;

#[test]
fn item_reader() {
    let item_reader: ItemReader<User> = ItemReader::new();
    let users = item_reader.read("name;email;age\nJohn Doe;john.doe@email.com;33", ";");
    assert!(users.is_some());
    if let Some(users) = &users {
        let first = users.first().unwrap();
        assert_eq!("John Doe", first.name);
        assert_eq!("john.doe@email.com", first.email);
        assert_eq!(33, first.age);
    }
}

#[test]
fn blank_lines_are_skipped() {
    let reader: ItemReader<User> = ItemReader::new();
    let users = reader
        .read("name;email;age\nJohn;j@x;1\n\n   \t\nJane;k@y;2\n", ";")
        .unwrap();
    assert_eq!(2, users.len());
    assert_eq!("John", users[0].name);
    assert_eq!("Jane", users[1].name);
}

#[test]
fn row_missing_a_value_is_excluded() {
    let reader: ItemReader<User> = ItemReader::new();
    let users = reader
        .read("name;email;age\nJohn;j@x\nJane;k@y;2", ";")
        .unwrap();
    assert_eq!(1, users.len());
    assert_eq!("Jane", users[0].name);
}

#[test]
fn row_with_unparsable_age_is_excluded() {
    let reader: ItemReader<User> = ItemReader::new();
    let users = reader
        .read("name;email;age\nJohn;j@x;abc\nJane;k@y;256\nJill;m@z;12", ";")
        .unwrap();
    assert_eq!(1, users.len());
    assert_eq!("Jill", users[0].name);
}

#[test]
fn empty_text_has_no_header() {
    let reader: ItemReader<User> = ItemReader::new();
    assert!(reader.read("", ";").is_none());
}

#[test]
fn header_only_gives_empty_batch() {
    let reader: ItemReader<User> = ItemReader::new();
    let users = reader.read("name;email;age", ";").unwrap();
    assert_eq!(0, users.len());
}

#[test]
fn extra_values_are_ignored() {
    let reader: ItemReader<User> = ItemReader::new();
    let users = reader
        .read("name;email;age\nJohn;j@x;3;spare;columns", ";")
        .unwrap();
    assert_eq!(1, users.len());
    assert_eq!(3, users[0].age);
}

#[test]
fn later_column_with_same_name_wins() {
    let reader: ItemReader<User> = ItemReader::new();
    let users = reader
        .read("name;name;email;age\nA;B;c@d;3", ";")
        .unwrap();
    assert_eq!(1, users.len());
    assert_eq!("B", users[0].name);
}

#[test]
fn items_store_starts_empty() {
    let mut reader: ItemReader<User> = ItemReader::new();
    assert_eq!(0, reader.items_mut().len());
    reader.items_mut().push(User {
        name: String::from("n"),
        email: String::from("e"),
        age: 1,
    });
    assert_eq!(1, reader.items_mut().len());
}

#[test]
fn processing_uppercases_in_place() {
    let mut batch = vec![
        User { name: String::from("John Doe"), email: String::from("john.doe@email.com"), age: 33 },
        User { name: String::from("jane"), email: String::from("k@y"), age: 2 },
    ];
    User::process(&mut batch);
    assert_eq!(2, batch.len());
    assert_eq!("JOHN DOE", batch[0].name);
    assert_eq!("JOHN.DOE@EMAIL.COM", batch[0].email);
    assert_eq!(33, batch[0].age);
    assert_eq!("JANE", batch[1].name);
    assert_eq!("K@Y", batch[1].email);
}
