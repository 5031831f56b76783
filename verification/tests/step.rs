use batch_step::ItemReader;
use batch_step::Status;
use batch_step::Step;
use batch_step::User;

#[test]
fn step() {
    let step: Step<User> = Step::new(1, "insert_users", "db.txt", ";");
    assert_eq!("insert_users", step.step_name());
    assert_eq!("db.txt", step.path());
    assert_eq!(";", step.delimiter());
}

#[test]
fn run_step() {
    let item_reader: ItemReader<User> = ItemReader::new();
    let mut step: Step<User> = Step::new(1, "insert_users", "db.txt", ";");
    step.set_item_reader(item_reader);
    step.item_processor = true;
    step.run(Some("name;email;age\nJohn Doe;john.doe@email.com;33"));
}

#[test]
fn step_getters() {
    let mut step: Step<User> = Step::new(7, "load", "users.txt", ",");
    assert_eq!(7, *step.step_id());
    assert!(step.item_reader().is_none());
    step.set_item_reader(ItemReader::new());
    assert!(step.item_reader().is_some());
    assert_eq!(Status::Starting, step.executor().step_status);
    assert!(step.executor().data.is_none());
}

#[test]
fn no_reader_stays_in_starting() {
    let mut step: Step<User> = Step::new(1, "s", "db.txt", ";");
    step.run(Some("name;email;age\nJohn;j@x;1"));
    assert_eq!(Status::Starting, step.executor().step_status);
    assert!(step.executor().data.is_none());
}

#[test]
fn reader_without_processor_stays_in_reading() {
    let mut step: Step<User> = Step::new(1, "s", "db.txt", ";");
    step.set_item_reader(ItemReader::new());
    step.run(Some("name;email;age\nJohn;j@x;1"));
    assert_eq!(Status::Reading, step.executor().step_status);
    let data = step.executor().data.as_ref().unwrap();
    assert_eq!(1, data.len());
    assert_eq!("John", data[0].name);
}

#[test]
fn reader_with_processor_reaches_processing() {
    let mut step: Step<User> = Step::new(1, "s", "db.txt", ";");
    step.set_item_reader(ItemReader::new());
    step.set_item_processor(true);
    step.run(Some("name;email;age\nJohn;j@x;1"));
    assert_eq!(Status::Processing, step.executor().step_status);
}

#[test]
fn unreadable_file_leaves_no_batch() {
    let mut step: Step<User> = Step::new(1, "s", "db.txt", ";");
    step.set_item_reader(ItemReader::new());
    step.set_item_processor(true);
    step.run(None);
    assert_eq!(Status::Reading, step.executor().step_status);
    assert!(step.executor().data.is_none());
}

#[test]
fn end_to_end() {
    let mut step: Step<User> = Step::new(1, "insert_users", "db.txt", ";");
    step.set_item_reader(ItemReader::new());
    step.set_item_processor(true);
    step.run(Some("name;email;age\nJohn Doe;john.doe@email.com;33\n\n"));
    assert_eq!(Status::Processing, step.executor().step_status);
    let data = step.executor().data.as_ref().unwrap();
    assert_eq!(1, data.len());
    assert_eq!("JOHN DOE", data[0].name);
    assert_eq!("JOHN.DOE@EMAIL.COM", data[0].email);
    assert_eq!(33, data[0].age);
}
