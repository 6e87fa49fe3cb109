use azs_site::azs_db::AzsDb;
use azs_site::controllers::{choose_handler, login_template, order_users_for_login, resolve_trk_pists};
use azs_site::jwt::{create_claims, validate_claims, validate_claims_at, TOKEN_EXPIRY};
use azs_site::logger::{LogItem, LogTree, Log};
use azs_site::models::{Color, MyError, MysqlInfo, Pist, Smena, Tank, Tovar, Trk, TypesStatus, User};

fn message(e: &MyError) -> String {
    match e {
        MyError::DatabaseError(m) => m.clone(),
    }
}

fn info(db: &str) -> MysqlInfo {
    MysqlInfo {
        ip: "h".to_string(),
        login: "l".to_string(),
        password: "p".to_string(),
        database: db.to_string(),
        port: "1".to_string(),
    }
}

#[test]
fn connection_states() {
    let mut db: AzsDb<u32> = AzsDb::new();
    assert_eq!(db.getDbStatus().status, TypesStatus::Disconnected);
    let url = db.begin_connect(&info("azs"));
    assert_eq!(url, "mysql://l:p@h:1/azs");
    assert_eq!(db.getDbStatus().status, TypesStatus::Connecting);
    assert!(db.mysql_info_last == info("azs"));
    assert!(db.must_store_info(&info("azs")));
    db.connection_opened(7, &info("azs"));
    assert_eq!(db.getDbStatus().status, TypesStatus::Connected);
    assert!(!db.must_store_info(&info("azs")));
    assert!(db.connection_ready("15".to_string()));
    assert_eq!(db.azs_id, "15");
    assert!(!db.is_connecting);
    db.begin_connect(&info("other"));
    let e = db.connection_failed("t", "refused");
    assert_eq!(message(&e), "MYSQL|| t error: refused\n");
    assert_eq!(db.getDbStatus().status, TypesStatus::Disconnected);
    assert!(db.mysql_info_success == info("azs"));
    db.disconnect();
    assert_eq!(db.getDbStatus().status, TypesStatus::Disconnected);
}

#[test]
fn claims_are_checked() {
    let c = create_claims(5, true, info("azs"));
    assert_eq!(c.exp, TOKEN_EXPIRY);
    assert_eq!(TOKEN_EXPIRY, 10000000000);
    let mut admin = false;
    assert!(validate_claims_at(Some(c.clone()), 1_700_000_000, &info("azs"), &mut admin));
    assert!(admin);
    let mut admin = true;
    assert!(!validate_claims_at(Some(c.clone()), 1_700_000_000, &info("other"), &mut admin));
    assert!(!admin);
    let mut admin = true;
    assert!(!validate_claims_at(Some(c.clone()), 10_000_000_000, &info("azs"), &mut admin));
    assert!(!admin);
    let mut admin = true;
    assert!(!validate_claims_at(None, 0, &info("azs"), &mut admin));
    assert!(!admin);
    let mut admin = false;
    assert!(validate_claims(Some(c), &info("azs"), &mut admin));
    assert!(admin);
}

fn path(names: &[&str]) -> Vec<String> {
    names.iter().map(|s| s.to_string()).collect()
}

#[test]
fn log_entries_land_in_their_groups() {
    let mut t = LogTree::new();
    assert_eq!(t.get_log(&path(&[])), Some(vec![]));
    t.add_log(0, &path(&["a", "b"]), "d0".to_string(), "m0".to_string());
    t.add_log(1, &path(&[]), "d1".to_string(), "m1".to_string());
    t.add_log(2, &path(&["a"]), "d2".to_string(), "m2".to_string());
    t.add_log(3, &path(&["a", "b"]), "d3".to_string(), "m3".to_string());
    assert_eq!(t.get_log(&path(&[])), Some(vec![true, false]));
    assert_eq!(t.get_log(&path(&["a"])), Some(vec![true, false]));
    assert_eq!(t.get_log(&path(&["a", "b"])), Some(vec![false, false]));
    assert_eq!(t.get_log(&path(&["x"])), None);
    assert_eq!(t.get_log(&path(&["a", "b", "c"])), None);
    let log = |n: u64| Log { number: n, data: format!("d{}", n), message: format!("m{}", n) };
    assert_eq!(
        t.logs,
        vec![
            LogItem::LogGroup(
                "a".to_string(),
                vec![
                    LogItem::LogGroup("b".to_string(), vec![LogItem::SingleLog(log(0)), LogItem::SingleLog(log(3))]),
                    LogItem::SingleLog(log(2)),
                ]
            ),
            LogItem::SingleLog(log(1)),
        ]
    );
}

fn user(id: i32, name: &str) -> User {
    User { id_user: id, name: name.to_string(), admin: id >= 1000000 }
}

#[test]
fn login_list_puts_the_operator_first() {
    let users = vec![user(1, "a"), user(2, "b"), user(3, "c"), user(2, "d")];
    assert_eq!(order_users_for_login(users.clone(), 2), vec![user(2, "b"), user(1, "a"), user(3, "c"), user(2, "d")]);
    assert_eq!(order_users_for_login(users.clone(), 1), users);
    assert_eq!(order_users_for_login(users.clone(), 9), users);
    assert_eq!(order_users_for_login(vec![], 9), vec![]);
    let t = login_template(&Smena { nn: 1, nn_smena: 1, id_user: 3, status: true }, users);
    assert!(t.smena);
    assert_eq!(t.users[0], user(3, "c"));
    assert_eq!(t.users[2], user(1, "a"));
}

#[test]
fn handler_by_admin_mark() {
    assert!(matches!(choose_handler(Some(true), "t"), Ok(true)));
    assert!(matches!(choose_handler(Some(false), "t"), Ok(false)));
    match choose_handler(None, "t") {
        Err(e) => assert_eq!(message(&e), "LOGIC|| t error: IT IS NOT SITE WITH AUTH\n"),
        Ok(_) => panic!("no mark must fail"),
    }
}

fn tovar(id: i32, name: &str, price: f32, color: Color) -> Tovar {
    Tovar {
        id_tovar: id,
        price_bits: price.to_bits(),
        name: name.to_string(),
        name_p: String::new(),
        name_p_f: String::new(),
        name_p_v: String::new(),
        color,
    }
}

fn trk(id: i32, pists: Vec<Pist>) -> Trk {
    Trk { nn: 1, id_trk: id, x_pos: 0, y_pos: 0, scale_bits: 0, pists }
}

#[test]
fn map_nozzles_take_the_last_tank_and_product() {
    let tovars = vec![
        tovar(1, "A92", 50.0, Color { r: 1, g: 1, b: 1 }),
        tovar(1, "A92new", 51.5, Color { r: 9, g: 8, b: 7 }),
        tovar(2, "DT", 48.0, Color { r: 0, g: 0, b: 0 }),
    ];
    let tanks = vec![
        Tank { id_tank: 10, id_tovar: 2, volume: 0, remain: 0 },
        Tank { id_tank: 10, id_tovar: 1, volume: 0, remain: 0 },
        Tank { id_tank: 11, id_tovar: 2, volume: 0, remain: 0 },
    ];
    let trks = vec![trk(1, vec![Pist { id_pist: 1, id_tank: 10 }, Pist { id_pist: 2, id_tank: 11 }]), trk(2, vec![])];
    let out = resolve_trk_pists(&tovars, &tanks, &trks, "t").ok().unwrap();
    assert_eq!(out.len(), 2);
    assert_eq!(out[0].len(), 2);
    assert!(out[1].is_empty());
    assert_eq!(out[0][0].name, "A92new");
    assert_eq!(f32::from_bits(out[0][0].price_bits), 51.5);
    assert_eq!((out[0][0].r, out[0][0].g, out[0][0].b), (9, 8, 7));
    assert_eq!(out[0][1].name, "DT");
    assert_eq!(out[0][1].id_pist, 2);
    assert_eq!(out[0][1].id_tank, 11);
}

#[test]
fn map_nozzles_fail_on_the_first_unknown() {
    let tovars = vec![tovar(1, "A", 1.0, Color { r: 0, g: 0, b: 0 })];
    let tanks = vec![Tank { id_tank: 10, id_tovar: 5, volume: 0, remain: 0 }, Tank { id_tank: 11, id_tovar: 1, volume: 0, remain: 0 }];
    let bad_tovar = vec![trk(1, vec![Pist { id_pist: 1, id_tank: 11 }, Pist { id_pist: 2, id_tank: 10 }, Pist { id_pist: 3, id_tank: 99 }])];
    match resolve_trk_pists(&tovars, &tanks, &bad_tovar, "t") {
        Err(e) => assert_eq!(message(&e), "MYSQL|| t error: PARSE TOVAR\n"),
        Ok(_) => panic!("unknown product must fail"),
    }
    let bad_tank = vec![trk(1, vec![Pist { id_pist: 3, id_tank: 99 }]), trk(2, vec![Pist { id_pist: 2, id_tank: 10 }])];
    match resolve_trk_pists(&tovars, &tanks, &bad_tank, "t") {
        Err(e) => assert_eq!(message(&e), "MYSQL|| t error: PARSE TANKS\n"),
        Ok(_) => panic!("unknown tank must fail"),
    }
}
