use azs_site::models::{first_failure, get_rgb, Color, MyError, MysqlInfo};

fn message(e: &MyError) -> String {
    match e {
        MyError::DatabaseError(m) => m.clone(),
    }
}

fn info(ip: &str) -> MysqlInfo {
    MysqlInfo {
        ip: ip.to_string(),
        login: "root".to_string(),
        password: "pw".to_string(),
        database: "azs".to_string(),
        port: "3306".to_string(),
    }
}

#[test]
fn logged_error_text() {
    let e = MyError::logged("MYSQL", "2024-01-02 03:04", "SMENA EMPTY");
    assert_eq!(message(&e), "MYSQL|| 2024-01-02 03:04 error: SMENA EMPTY\n");
}

#[test]
fn pushlog_appends_the_message() {
    let mut log = String::from("old\n");
    MyError::logged("FILE OPEN", "t", "gone").pushlog(&mut log);
    assert_eq!(log, "old\nFILE OPEN|| t error: gone\n");
}

#[test]
fn mysql_info_new_is_empty() {
    let m = MysqlInfo::new();
    assert!(m.is_empty());
    assert!(!info("1.2.3.4").is_empty());
    let mut only_port = MysqlInfo::new();
    only_port.port = "1".to_string();
    assert!(!only_port.is_empty());
}

#[test]
fn mysql_info_equality_compares_all_fields() {
    assert!(info("a") == info("a"));
    assert!(info("a") != info("b"));
    let mut other = info("a");
    other.password = "x".to_string();
    assert!(info("a") != other);
    assert!(info("a").duplicate() == info("a"));
}

#[test]
fn get_rgb_packs_the_colour() {
    assert_eq!(get_rgb(1, 2, 3), 0x010203);
    assert_eq!(get_rgb(255, 255, 255), 0xFFFFFF);
    assert_eq!(get_rgb(0, 0, 0), 0);
}

#[test]
fn colour_from_db_code() {
    assert_eq!(Color::from_db(0x123456), Color { r: 0x12, g: 0x34, b: 0x56 });
    assert_eq!(Color::from_db(-1), Color { r: 255, g: 255, b: 255 });
    assert_eq!(Color::from_db(0x7F00FF00), Color { r: 0, g: 0xFF, b: 0 });
}

#[test]
fn colour_reads_back_as_written() {
    for (r, g, b) in [(0u8, 0u8, 0u8), (255, 0, 128), (1, 2, 3), (255, 255, 255)] {
        assert_eq!(Color::from_db(get_rgb(r, g, b) as i32), Color { r, g, b });
    }
}

#[test]
fn first_failure_of_a_batch() {
    assert!(matches!(first_failure(vec![]), Ok(true)));
    assert!(matches!(first_failure(vec![Ok(true), Ok(false)]), Ok(true)));
    let r = first_failure(vec![
        Ok(true),
        Err(MyError::logged("A", "t", "first")),
        Err(MyError::logged("B", "t", "second")),
    ]);
    match r {
        Err(e) => assert_eq!(message(&e), "A|| t error: first\n"),
        Ok(_) => panic!("expected the first failure"),
    }
}
