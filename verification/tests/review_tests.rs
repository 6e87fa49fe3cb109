use azs_site::models::{MyError, MysqlInfo, Pist_ID, Smena, TovarDb, TrkDb, Trk_ID};
use azs_site::queries::{delete_trk_label, smena_operator_label};
use azs_site::rows::{stored_record_from_read, tovar_from_rows, tovars_from_rows, trk_count, trk_from_rows, trks_from_rows};

fn message(e: &MyError) -> String {
    match e {
        MyError::DatabaseError(m) => m.clone(),
    }
}

fn row(id_trk: i32, id_pist: i32) -> TrkDb {
    TrkDb { id_trk, x_pos: id_trk * 10, y_pos: 5, scale_bits: 2.0f64.to_bits(), id_pist, id_tank: id_pist + 100 }
}

#[test]
fn trk_count_counts_runs() {
    assert_eq!(trk_count(&vec![]), 0);
    assert_eq!(trk_count(&vec![row(1, 1), row(1, 2), row(2, 1), row(1, 3)]), 3);
    assert_eq!(trk_count(&vec![row(-1, 1)]), 1);
}

#[test]
fn one_dispenser_read_matches_the_full_read() {
    let all = vec![row(1, 1), row(2, 1), row(2, 2), row(3, 7)];
    let one: Vec<TrkDb> = all.iter().copied().filter(|r| r.id_trk == 2).collect();
    let ts = trks_from_rows(&all);
    let t = trk_from_rows(&one);
    assert_eq!(t.nn, 1);
    assert_eq!(ts[1].nn, 2);
    assert_eq!((t.id_trk, t.x_pos, t.y_pos, t.scale_bits), (ts[1].id_trk, ts[1].x_pos, ts[1].y_pos, ts[1].scale_bits));
    assert_eq!(t.pists, ts[1].pists);
}

fn tovar_row(id: i32, name: &str) -> TovarDb {
    TovarDb {
        id_tovar: id,
        price_bits: 1.5f32.to_bits(),
        name: name.to_string(),
        name_p: String::new(),
        name_p_f: String::new(),
        name_p_v: String::new(),
        color: 0x0A0B0C,
    }
}

#[test]
fn one_product_read_matches_the_full_read() {
    let all = vec![tovar_row(1, "a"), tovar_row(2, "b"), tovar_row(2, "c")];
    let one: Vec<TovarDb> = all.iter().cloned().filter(|r| r.id_tovar == 2).collect();
    let ts = tovars_from_rows(all.clone());
    assert_eq!(tovar_from_rows(one), ts[1]);
    let none: Vec<TovarDb> = all.iter().cloned().filter(|r| r.id_tovar == 9).collect();
    assert_eq!(tovar_from_rows(none).id_tovar, 0);
}

#[test]
fn stored_record_read() {
    let m = MysqlInfo {
        ip: "h".to_string(),
        login: "l".to_string(),
        password: "p".to_string(),
        database: "d".to_string(),
        port: "1".to_string(),
    };
    assert!(stored_record_from_read(Ok(vec![m.clone()]), "t").ok().unwrap() == m);
    assert!(stored_record_from_read(Ok(vec![]), "t").ok().unwrap().is_empty());
    match stored_record_from_read(Err("locked".to_string()), "t") {
        Err(e) => assert_eq!(message(&e), "SQLITE|| t error: locked\n"),
        Ok(_) => panic!("a failed read must fail"),
    }
}

#[test]
fn statement_failed_text() {
    assert_eq!(message(&MyError::statement_failed("t", "SET TRK")), "MYSQL|| t error: SET TRK \n");
}

#[test]
fn error_labels() {
    assert_eq!(smena_operator_label(&Smena { nn: 1, nn_smena: 1, id_user: 1, status: true }), "UPDATE SMENA");
    assert_eq!(smena_operator_label(&Smena { nn: 1, nn_smena: 1, id_user: 1, status: false }), "INSERT SMENA");
    assert_eq!(delete_trk_label(&Trk_ID { id_trk: 1, pists: vec![] }), "DELETE ALL TRK");
    assert_eq!(delete_trk_label(&Trk_ID { id_trk: 1, pists: vec![Pist_ID { id_pist: 2 }] }), "DELETE TRK PIST");
}
