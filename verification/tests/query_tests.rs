use azs_site::models::{Color, MysqlInfo, Pist, Pist_ID, ScreenSize, Smena, Tank, Tovar, Trk, Trk_ID};
use azs_site::queries::{
    close_smena_query, database_url, delete_trk_queries, screen_size_query, set_pists_queries,
    set_tank_query, set_tovar_query, set_trk_query, smena_operator_query, tovar_select_query,
    trk_select_query, store_mysql_info_statement,
};

#[test]
fn database_url_text() {
    let m = MysqlInfo {
        ip: "10.0.0.1".to_string(),
        login: "root".to_string(),
        password: "pw".to_string(),
        database: "azs".to_string(),
        port: "3306".to_string(),
    };
    assert_eq!(database_url(&m), "mysql://root:pw@10.0.0.1:3306/azs");
}

#[test]
fn close_smena_text() {
    assert_eq!(
        close_smena_query("2024-05-06 07:08", 15),
        "UPDATE smena SET status=0, sm_end=\"2024-05-06 07:08\"  WHERE NSmen=15;"
    );
}

#[test]
fn smena_operator_update_or_insert() {
    let open = Smena { nn: 4, nn_smena: 9, id_user: 1, status: true };
    assert_eq!(smena_operator_query(&open, 77, "12", "s", "e"), "UPDATE smena SET id_operator=77 WHERE NSmen=9;");
    let closed = Smena { nn: 4, nn_smena: 9, id_user: 1, status: false };
    assert_eq!(
        smena_operator_query(&closed, 77, "12", "2024-01-01 00:00", "2024-01-01 00:01"),
        "INSERT INTO smena (NN,id_azs,sm_start,sm_end,id_operator,status,id_ppo,znum) VALUES (5,12,'2024-01-01 00:00','2024-01-01 00:01',77,1,10,10);"
    );
}

#[test]
fn set_tank_text() {
    let t = Tank { id_tank: 3, id_tovar: 2, volume: 1000, remain: -5 };
    assert_eq!(set_tank_query(&t), "UPDATE tank SET id_tank=3, id_tovar=2, volume=1000, remain=-5 WHERE id_tank=3;");
}

#[test]
fn set_tovar_text() {
    let t = Tovar {
        id_tovar: 8,
        price_bits: 55.9f32.to_bits(),
        name: "A95".to_string(),
        name_p: "a".to_string(),
        name_p_f: "b".to_string(),
        name_p_v: "c".to_string(),
        color: Color { r: 1, g: 2, b: 3 },
    };
    let price = f32::from_bits(t.price_bits).to_string();
    assert_eq!(
        set_tovar_query(&t, &price),
        "UPDATE tovar SET id_tovar=8, price=55.9, name=\"A95\", name_p=\"a\", name_p_f=\"b\", name_p_v=\"c\", color=66051 WHERE id_tovar=8;"
    );
}

#[test]
fn set_trk_text() {
    let t = Trk { nn: 1, id_trk: 2, x_pos: 30, y_pos: 40, scale_bits: 1.25f64.to_bits(), pists: vec![] };
    assert_eq!(
        set_trk_query(&t, &f64::from_bits(t.scale_bits).to_string()),
        "UPDATE com_trk SET id_trk=2, x_pos=30, y_pos=40, scale=1.25 WHERE id_trk=2;"
    );
}

#[test]
fn set_pists_numbers_new_nozzles_after_the_greatest() {
    let pists = vec![
        Pist { id_pist: 0, id_tank: 5 },
        Pist { id_pist: 3, id_tank: 6 },
        Pist { id_pist: 0, id_tank: 7 },
    ];
    let qs = set_pists_queries(&pists, 11, 4);
    assert_eq!(
        qs,
        vec![
            "INSERT INTO trk (id_trk,id_pist,id_tank) VALUES (11, 5, \"5\");".to_string(),
            "UPDATE trk SET id_trk=11, id_pist=3, id_tank=6 WHERE id_trk=11 AND id_pist=3;".to_string(),
            "INSERT INTO trk (id_trk,id_pist,id_tank) VALUES (11, 6, \"7\");".to_string(),
        ]
    );
    assert!(set_pists_queries(&vec![], 1, 1).is_empty());
}

#[test]
fn delete_trk_whole_or_nozzles() {
    let whole = Trk_ID { id_trk: 4, pists: vec![] };
    assert_eq!(
        delete_trk_queries(&whole),
        vec!["DELETE FROM com_trk WHERE id_trk=4;".to_string(), "DELETE FROM trk WHERE id_trk=4;".to_string()]
    );
    let some = Trk_ID { id_trk: 4, pists: vec![Pist_ID { id_pist: 1 }, Pist_ID { id_pist: 2 }] };
    assert_eq!(
        delete_trk_queries(&some),
        vec![
            "DELETE FROM trk WHERE id_trk=4 AND id_pist=1;".to_string(),
            "DELETE FROM trk WHERE id_trk=4 AND id_pist=2;".to_string()
        ]
    );
}

#[test]
fn screen_size_text() {
    assert_eq!(
        screen_size_query(&ScreenSize { width: 1920, height: 1080 }),
        "UPDATE loc_const SET value=\"1920,1080\" WHERE descr_var=\"cnst_ScreenSize\";"
    );
}

#[test]
fn select_texts() {
    assert_eq!(tovar_select_query(3), "SELECT * FROM tovar WHERE id_tovar=3 ORDER BY NN;");
    let q = trk_select_query(6);
    assert!(q.starts_with("SELECT com_trk.id_trk, com_trk.x_pos, com_trk.y_pos, com_trk.scale,\n"));
    assert!(q.contains("WHERE com_trk.id_trk=6\n            ORDER BY com_trk.id_trk;"));
}

#[test]
fn store_statement_inserts_first_then_updates() {
    assert!(store_mysql_info_statement(0).starts_with("INSERT INTO mysql_db (ip, login, password, database, port)"));
    assert!(store_mysql_info_statement(1).starts_with("UPDATE mysql_db SET ip=?"));
    assert!(store_mysql_info_statement(-3).starts_with("UPDATE"));
}
