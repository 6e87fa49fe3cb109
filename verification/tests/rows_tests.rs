use azs_site::models::{MyError, MysqlInfo, Pist, ScreenSize, Smena, SmenaDb, Tank, Tovar, TovarDb, Color, TrkDb, UserDb};
use azs_site::rows::{
    azs_id_from_rows, check_password, max_pist_from_rows, mysql_info_from_rows, screen_size_from_rows,
    screen_size_from_value, smena_from_rows, tank_from_rows, tovar_from_rows, tovars_from_rows,
    trk_from_rows, trks_from_rows, users_from_rows,
};
use azs_site::queries::screen_size_query;

fn message(e: &MyError) -> String {
    match e {
        MyError::DatabaseError(m) => m.clone(),
    }
}

fn row(id_trk: i32, x: i32, id_pist: i32, id_tank: i32) -> TrkDb {
    TrkDb { id_trk, x_pos: x, y_pos: x + 1, scale_bits: 1.5f64.to_bits(), id_pist, id_tank }
}

#[test]
fn trks_group_runs_of_rows() {
    let rows = vec![row(3, 10, 1, 7), row(3, 99, 2, 8), row(5, 20, 1, 9), row(3, 30, 4, 1)];
    let trks = trks_from_rows(&rows);
    assert_eq!(trks.len(), 3);
    assert_eq!(trks[0].nn, 1);
    assert_eq!(trks[0].id_trk, 3);
    assert_eq!(trks[0].x_pos, 10);
    assert_eq!(trks[0].y_pos, 11);
    assert_eq!(f64::from_bits(trks[0].scale_bits), 1.5);
    assert_eq!(trks[0].pists, vec![Pist { id_pist: 1, id_tank: 7 }, Pist { id_pist: 2, id_tank: 8 }]);
    assert_eq!(trks[1].nn, 2);
    assert_eq!(trks[1].id_trk, 5);
    assert_eq!(trks[1].pists, vec![Pist { id_pist: 1, id_tank: 9 }]);
    assert_eq!(trks[2].nn, 3);
    assert_eq!(trks[2].id_trk, 3);
    assert_eq!(trks[2].x_pos, 30);
    assert_eq!(trks[2].pists, vec![Pist { id_pist: 4, id_tank: 1 }]);
    assert!(trks_from_rows(&vec![]).is_empty());
}

#[test]
fn grouping_keeps_every_nozzle_in_order() {
    let rows = vec![row(1, 0, 1, 1), row(1, 0, 2, 2), row(2, 0, 3, 3), row(2, 0, 4, 4), row(1, 0, 5, 5)];
    let trks = trks_from_rows(&rows);
    let flat: Vec<Pist> = trks.iter().flat_map(|t| t.pists.clone()).collect();
    let expected: Vec<Pist> = rows.iter().map(|r| Pist { id_pist: r.id_pist, id_tank: r.id_tank }).collect();
    assert_eq!(flat, expected);
    for (j, t) in trks.iter().enumerate() {
        assert_eq!(t.nn as usize, j + 1);
    }
}

#[test]
fn trk_from_rows_first_or_default() {
    let t = trk_from_rows(&vec![row(4, 1, 1, 1), row(4, 1, 2, 2), row(6, 1, 3, 3)]);
    assert_eq!(t.id_trk, 4);
    assert_eq!(t.nn, 1);
    assert_eq!(t.pists.len(), 2);
    let d = trk_from_rows(&vec![]);
    assert_eq!(d.id_trk, 0);
    assert_eq!(d.nn, 0);
    assert_eq!(d.scale_bits, 0);
    assert!(d.pists.is_empty());
}

#[test]
fn users_admin_from_one_million() {
    let users = users_from_rows(vec![
        UserDb { id_user: 5, name: "ann".to_string() },
        UserDb { id_user: 999999, name: "bob".to_string() },
        UserDb { id_user: 1000000, name: "boss".to_string() },
    ]);
    assert_eq!(users.len(), 3);
    assert!(!users[0].admin);
    assert!(!users[1].admin);
    assert!(users[2].admin);
    assert_eq!(users[2].name, "boss");
    assert_eq!(users[1].id_user, 999999);
}

#[test]
fn smena_from_first_row_or_error() {
    let rows = vec![SmenaDb { NN: 10, NSmen: 77, id_operator: 3, status: 2 }];
    let s = smena_from_rows(&rows, "t").ok().unwrap();
    assert_eq!(s, Smena { nn: 10, nn_smena: 77, id_user: 3, status: true });
    let closed = smena_from_rows(&vec![SmenaDb { NN: 1, NSmen: 1, id_operator: 1, status: 0 }], "t").ok().unwrap();
    assert!(!closed.status);
    match smena_from_rows(&vec![], "now") {
        Err(e) => assert_eq!(message(&e), "MYSQL|| now error: SMENA EMPTY\n"),
        Ok(_) => panic!("no rows must fail"),
    }
}

#[test]
fn tank_first_or_default() {
    let t = Tank { id_tank: 2, id_tovar: 3, volume: 100, remain: 40 };
    assert_eq!(tank_from_rows(&vec![t, Tank { id_tank: 9, id_tovar: 9, volume: 9, remain: 9 }]), t);
    assert_eq!(tank_from_rows(&vec![]), Tank::default());
    assert_eq!(Tank::default(), Tank { id_tank: 0, id_tovar: 0, volume: 0, remain: 0 });
}

fn tovar_row(id: i32, color: i32) -> TovarDb {
    TovarDb {
        id_tovar: id,
        price_bits: 52.5f32.to_bits(),
        name: format!("A{}", id),
        name_p: "p".to_string(),
        name_p_f: "pf".to_string(),
        name_p_v: "pv".to_string(),
        color,
    }
}

#[test]
fn tovars_read_their_colours() {
    let ts = tovars_from_rows(vec![tovar_row(1, 0xFF0000), tovar_row(2, 0x00FF7F)]);
    assert_eq!(ts.len(), 2);
    assert_eq!(ts[0].color, Color { r: 255, g: 0, b: 0 });
    assert_eq!(ts[1].color, Color { r: 0, g: 255, b: 127 });
    assert_eq!(ts[1].name, "A2");
    assert_eq!(f32::from_bits(ts[0].price_bits), 52.5);
    let one = tovar_from_rows(vec![tovar_row(7, 0x010203)]);
    assert_eq!(one.id_tovar, 7);
    assert_eq!(one.color, Color { r: 1, g: 2, b: 3 });
    assert_eq!(tovar_from_rows(vec![]), Tovar::default());
}

#[test]
fn azs_id_first_or_error() {
    assert_eq!(azs_id_from_rows(&vec!["42".to_string(), "9".to_string()], "t").ok().unwrap(), "42");
    match azs_id_from_rows(&vec![], "t") {
        Err(e) => assert_eq!(message(&e), "MYSQL|| t error: EMPTY AZS ID\n"),
        Ok(_) => panic!("no rows must fail"),
    }
}

#[test]
fn screen_size_reads_the_width_twice() {
    assert_eq!(screen_size_from_value("1920,1080", "t").ok().unwrap(), ScreenSize { width: 1920, height: 1920 });
    assert_eq!(screen_size_from_value("abc,5", "t").ok().unwrap(), ScreenSize { width: 0, height: 0 });
    assert_eq!(screen_size_from_value(",5", "t").ok().unwrap(), ScreenSize { width: 0, height: 0 });
    assert_eq!(screen_size_from_value("-7,", "t").ok().unwrap(), ScreenSize { width: -7, height: -7 });
    for bad in ["1920", "1,2,3", "", ",,"] {
        match screen_size_from_value(bad, "t") {
            Err(e) => assert_eq!(message(&e), "MYSQL|| t error: PARSE SCREEN  \n"),
            Ok(_) => panic!("{:?} must fail", bad),
        }
    }
    assert_eq!(screen_size_from_rows(&vec![], "t").ok().unwrap(), ScreenSize { width: 0, height: 0 });
    assert_eq!(screen_size_from_rows(&vec!["800,600".to_string()], "t").ok().unwrap(), ScreenSize { width: 800, height: 800 });
}

#[test]
fn screen_size_written_then_read() {
    let s = ScreenSize { width: 1280, height: 1280 };
    let q = screen_size_query(&s);
    let start = q.find('"').unwrap() + 1;
    let end = start + q[start..].find('"').unwrap();
    let value = &q[start..end];
    assert_eq!(value, "1280,1280");
    assert_eq!(screen_size_from_value(value, "t").ok().unwrap(), s);
}

#[test]
fn mysql_info_first_or_empty() {
    let m = MysqlInfo {
        ip: "h".to_string(),
        login: "l".to_string(),
        password: "p".to_string(),
        database: "d".to_string(),
        port: "1".to_string(),
    };
    assert!(mysql_info_from_rows(&vec![m.clone()]) == m);
    assert!(mysql_info_from_rows(&vec![]).is_empty());
}

#[test]
fn check_password_marks_administrators() {
    let pw = vec!["secret".to_string()];
    let mut admin = false;
    assert!(check_password(&pw, 1000001, &"secret".to_string(), &mut admin));
    assert!(admin);
    let mut admin = false;
    assert!(check_password(&pw, 12, &"secret".to_string(), &mut admin));
    assert!(!admin);
    let mut admin = true;
    assert!(!check_password(&pw, 1000001, &"wrong".to_string(), &mut admin));
    assert!(admin);
    let mut admin = false;
    assert!(!check_password(&vec![], 1, &"".to_string(), &mut admin));
}

#[test]
fn max_pist_first_or_error() {
    assert_eq!(max_pist_from_rows(&vec![4, 1], "t").ok().unwrap(), 4);
    match max_pist_from_rows(&vec![], "t") {
        Err(e) => assert_eq!(message(&e), "MYSQL|| t error: MAX PIST ERROR\n"),
        Ok(_) => panic!("no rows must fail"),
    }
}
