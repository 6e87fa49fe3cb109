//! The text of the SQL statements that the site sends, and of its database address.
use vstd::prelude::*;
use crate::models::{MysqlInfo, Pist, ScreenSize, Smena, Tank, Tovar, Trk, Trk_ID};
use crate::text::{dec_int, dec_nat, push_dec_i64, push_dec_u64};
use crate::models::get_rgb;

verus! {

/// Appends the text of an `i32`.
fn push_i32(s: &mut String, i: i32)
    ensures
        final(s)@ == old(s)@ + dec_int(i as int),
{
    push_dec_i64(s, i as i64);
}

/// The address the site connects to: `mysql://LOGIN:PASSWORD@IP:PORT/DATABASE`.
pub open spec fn database_url_text(m: MysqlInfo) -> Seq<char> {
    "mysql://"@ + m.login@ + ":"@ + m.password@ + "@"@ + m.ip@ + ":"@ + m.port@ + "/"@ + m.database@
}

/// The address of the MySQL database that a connection record names.
pub fn database_url(m: &MysqlInfo) -> (u: String)
    ensures
        u@ == database_url_text(*m),
{
    let mut u = String::from_str("mysql://");
    u.append(m.login.as_str());
    u.append(":");
    u.append(m.password.as_str());
    u.append("@");
    u.append(m.ip.as_str());
    u.append(":");
    u.append(m.port.as_str());
    u.append("/");
    u.append(m.database.as_str());
    assert(u@ =~= database_url_text(*m));
    u
}

/// The statement that closes shift `nn_smena` at time `now`.
pub open spec fn close_smena_sql(now: Seq<char>, nn_smena: i32) -> Seq<char> {
    "UPDATE smena SET status=0, sm_end=\""@ + now + "\"  WHERE NSmen="@ + dec_int(nn_smena as int) + ";"@
}

/// The statement that closes a shift.
pub fn close_smena_query(now: &str, nn_smena: i32) -> (q: String)
    ensures
        q@ == close_smena_sql(now@, nn_smena),
{
    let mut q = String::from_str("UPDATE smena SET status=0, sm_end=\"");
    q.append(now);
    q.append("\"  WHERE NSmen=");
    push_i32(&mut q, nn_smena);
    q.append(";");
    assert(q@ =~= close_smena_sql(now@, nn_smena));
    q
}

/// The statement that hands the newest shift to operator `id_user`: while the shift is
/// open, it changes the shift's operator; else it opens the next shift, numbered one
/// past the newest, for station `azs_id`, from `start` to `end`.
pub open spec fn smena_operator_sql(smena: Smena, id_user: i32, azs_id: Seq<char>, start: Seq<char>, end: Seq<char>) -> Seq<char> {
    if smena.status {
        "UPDATE smena SET id_operator="@ + dec_int(id_user as int) + " WHERE NSmen="@
            + dec_int(smena.nn_smena as int) + ";"@
    } else {
        "INSERT INTO smena (NN,id_azs,sm_start,sm_end,id_operator,status,id_ppo,znum) VALUES ("@
            + dec_int(smena.nn + 1) + ","@ + azs_id + ",'"@ + start + "','"@ + end + "',"@
            + dec_int(id_user as int) + ",1,10,10);"@
    }
}

/// The statement that hands the newest shift to an operator.
pub fn smena_operator_query(smena: &Smena, id_user: i32, azs_id: &str, start: &str, end: &str) -> (q: String)
    requires
        !smena.status ==> smena.nn < i32::MAX,
    ensures
        q@ == smena_operator_sql(*smena, id_user, azs_id@, start@, end@),
{
    if smena.status {
        let mut q = String::from_str("UPDATE smena SET id_operator=");
        push_i32(&mut q, id_user);
        q.append(" WHERE NSmen=");
        push_i32(&mut q, smena.nn_smena);
        q.append(";");
        assert(q@ =~= smena_operator_sql(*smena, id_user, azs_id@, start@, end@));
        q
    } else {
        let mut q = String::from_str(
            "INSERT INTO smena (NN,id_azs,sm_start,sm_end,id_operator,status,id_ppo,znum) VALUES (",
        );
        push_i32(&mut q, smena.nn + 1);
        q.append(",");
        q.append(azs_id);
        q.append(",'");
        q.append(start);
        q.append("','");
        q.append(end);
        q.append("',");
        push_i32(&mut q, id_user);
        q.append(",1,10,10);");
        assert(q@ =~= smena_operator_sql(*smena, id_user, azs_id@, start@, end@));
        q
    }
}

/// What the error of the statement that hands over a shift names: `UPDATE SMENA` while
/// the shift is open, else `INSERT SMENA`.
pub fn smena_operator_label(smena: &Smena) -> (s: &'static str)
    ensures
        smena.status ==> s@ == "UPDATE SMENA"@,
        !smena.status ==> s@ == "INSERT SMENA"@,
{
    if smena.status { "UPDATE SMENA" } else { "INSERT SMENA" }
}

/// The statement that stores a tank.
pub open spec fn set_tank_sql(t: Tank) -> Seq<char> {
    "UPDATE tank SET id_tank="@ + dec_int(t.id_tank as int) + ", id_tovar="@ + dec_int(t.id_tovar as int)
        + ", volume="@ + dec_int(t.volume as int) + ", remain="@ + dec_int(t.remain as int)
        + " WHERE id_tank="@ + dec_int(t.id_tank as int) + ";"@
}

/// The statement that stores a tank.
pub fn set_tank_query(t: &Tank) -> (q: String)
    ensures
        q@ == set_tank_sql(*t),
{
    let mut q = String::from_str("UPDATE tank SET id_tank=");
    push_i32(&mut q, t.id_tank);
    q.append(", id_tovar=");
    push_i32(&mut q, t.id_tovar);
    q.append(", volume=");
    push_i32(&mut q, t.volume);
    q.append(", remain=");
    push_i32(&mut q, t.remain);
    q.append(" WHERE id_tank=");
    push_i32(&mut q, t.id_tank);
    q.append(";");
    assert(q@ =~= set_tank_sql(*t));
    q
}

/// The statement that stores a product; `price` is the text of its price, the colour is
/// stored as its code `0xRRGGBB` in decimal.
pub open spec fn set_tovar_sql(t: Tovar, price: Seq<char>) -> Seq<char> {
    "UPDATE tovar SET id_tovar="@ + dec_int(t.id_tovar as int) + ", price="@ + price
        + ", name=\""@ + t.name@ + "\", name_p=\""@ + t.name_p@ + "\", name_p_f=\""@ + t.name_p_f@
        + "\", name_p_v=\""@ + t.name_p_v@ + "\", color="@
        + dec_nat((t.color.r * 65536 + t.color.g * 256 + t.color.b) as nat)
        + " WHERE id_tovar="@ + dec_int(t.id_tovar as int) + ";"@
}

/// The statement that stores a product.
pub fn set_tovar_query(t: &Tovar, price: &str) -> (q: String)
    ensures
        q@ == set_tovar_sql(*t, price@),
{
    let mut q = String::from_str("UPDATE tovar SET id_tovar=");
    push_i32(&mut q, t.id_tovar);
    q.append(", price=");
    q.append(price);
    q.append(", name=\"");
    q.append(t.name.as_str());
    q.append("\", name_p=\"");
    q.append(t.name_p.as_str());
    q.append("\", name_p_f=\"");
    q.append(t.name_p_f.as_str());
    q.append("\", name_p_v=\"");
    q.append(t.name_p_v.as_str());
    q.append("\", color=");
    let code = get_rgb(t.color.r, t.color.g, t.color.b);
    push_dec_u64(&mut q, code as u64);
    q.append(" WHERE id_tovar=");
    push_i32(&mut q, t.id_tovar);
    q.append(";");
    assert(q@ =~= set_tovar_sql(*t, price@));
    q
}

/// The statement that stores a dispenser's place; `scale` is the text of its scale.
pub open spec fn set_trk_sql(t: Trk, scale: Seq<char>) -> Seq<char> {
    "UPDATE com_trk SET id_trk="@ + dec_int(t.id_trk as int) + ", x_pos="@ + dec_int(t.x_pos as int)
        + ", y_pos="@ + dec_int(t.y_pos as int) + ", scale="@ + scale + " WHERE id_trk="@
        + dec_int(t.id_trk as int) + ";"@
}

/// The statement that stores a dispenser's place.
pub fn set_trk_query(t: &Trk, scale: &str) -> (q: String)
    ensures
        q@ == set_trk_sql(*t, scale@),
{
    let mut q = String::from_str("UPDATE com_trk SET id_trk=");
    push_i32(&mut q, t.id_trk);
    q.append(", x_pos=");
    push_i32(&mut q, t.x_pos);
    q.append(", y_pos=");
    push_i32(&mut q, t.y_pos);
    q.append(", scale=");
    q.append(scale);
    q.append(" WHERE id_trk=");
    push_i32(&mut q, t.id_trk);
    q.append(";");
    assert(q@ =~= set_trk_sql(*t, scale@));
    q
}

/// How many of the nozzles have number 0, that is, are new.
pub open spec fn count_new_pists(pists: Seq<Pist>) -> nat
    decreases pists.len(),
{
    if pists.len() == 0 {
        0
    } else {
        count_new_pists(pists.drop_last()) + (if pists.last().id_pist == 0 { 1nat } else { 0nat })
    }
}

/// The statement that stores nozzle `p` of dispenser `id_trk`: a new nozzle (number 0) is
/// inserted under number `new_id`; another one is updated in place.
pub open spec fn set_pist_sql(p: Pist, id_trk: i32, new_id: int) -> Seq<char> {
    if p.id_pist == 0 {
        "INSERT INTO trk (id_trk,id_pist,id_tank) VALUES ("@ + dec_int(id_trk as int) + ", "@
            + dec_int(new_id) + ", \""@ + dec_int(p.id_tank as int) + "\");"@
    } else {
        "UPDATE trk SET id_trk="@ + dec_int(id_trk as int) + ", id_pist="@ + dec_int(p.id_pist as int)
            + ", id_tank="@ + dec_int(p.id_tank as int) + " WHERE id_trk="@ + dec_int(id_trk as int)
            + " AND id_pist="@ + dec_int(p.id_pist as int) + ";"@
    }
}

/// The statements that store the nozzles of dispenser `id_trk`, one per nozzle, in
/// order: the new nozzles get the numbers after `max_id`, in the order they come.
pub open spec fn set_pists_sql(pists: Seq<Pist>, id_trk: i32, max_id: i32) -> Seq<Seq<char>> {
    Seq::new(
        pists.len(),
        |i: int| set_pist_sql(pists[i], id_trk, max_id + count_new_pists(pists.take(i + 1))),
    )
}

proof fn lemma_count_new_pists_mono(pists: Seq<Pist>, i: int)
    requires
        0 <= i <= pists.len(),
    ensures
        count_new_pists(pists.take(i)) <= count_new_pists(pists),
    decreases pists.len() - i,
{
    if i < pists.len() {
        lemma_count_new_pists_mono(pists, i + 1);
        assert(pists.take(i + 1).drop_last() =~= pists.take(i));
    } else {
        assert(pists.take(i) =~= pists);
    }
}

/// The statements that store the nozzles of a dispenser.
pub fn set_pists_queries(pists: &Vec<Pist>, id_trk: i32, max_id: i32) -> (qs: Vec<String>)
    requires
        max_id + count_new_pists(pists@) <= i32::MAX,
    ensures
        qs@.map_values(|q: String| q@) == set_pists_sql(pists@, id_trk, max_id),
        qs@.len() == pists@.len(),
        forall|i: int| 0 <= i < pists@.len() && pists@[i].id_pist == 0 ==> (#[trigger] qs@[i])@
            == new_pist_insert_text(id_trk, max_id + 1 + pists@.take(i).filter(is_new_pist()).len(), pists@[i].id_tank),
{
    let mut qs: Vec<String> = Vec::new();
    let mut next: i32 = max_id;
    let len = pists.len();
    let mut k: usize = 0;
    while k < len
        invariant
            len == pists@.len(),
            k <= len,
            max_id + count_new_pists(pists@) <= i32::MAX,
            next == max_id + count_new_pists(pists@.take(k as int)),
            qs@.len() == k,
            forall|i: int| 0 <= i < k ==> #[trigger] qs@[i]@ == set_pists_sql(pists@, id_trk, max_id)[i],
        decreases len - k,
    {
        let p = pists[k];
        proof {
            assert(pists@.take(k + 1).drop_last() =~= pists@.take(k as int));
            lemma_count_new_pists_mono(pists@, k + 1);
        }
        let mut q: String;
        if p.id_pist == 0 {
            next = next + 1;
            q = String::from_str("INSERT INTO trk (id_trk,id_pist,id_tank) VALUES (");
            push_i32(&mut q, id_trk);
            q.append(", ");
            push_i32(&mut q, next);
            q.append(", \"");
            push_i32(&mut q, p.id_tank);
            q.append("\");");
        } else {
            q = String::from_str("UPDATE trk SET id_trk=");
            push_i32(&mut q, id_trk);
            q.append(", id_pist=");
            push_i32(&mut q, p.id_pist);
            q.append(", id_tank=");
            push_i32(&mut q, p.id_tank);
            q.append(" WHERE id_trk=");
            push_i32(&mut q, id_trk);
            q.append(" AND id_pist=");
            push_i32(&mut q, p.id_pist);
            q.append(";");
        }
        assert(q@ =~= set_pists_sql(pists@, id_trk, max_id)[k as int]);
        qs.push(q);
        k += 1;
    }
    assert(qs@.map_values(|q: String| q@) =~= set_pists_sql(pists@, id_trk, max_id));
    proof {
        lemma_new_pists_numbered(pists@, id_trk, max_id);
        assert forall|i: int| 0 <= i < pists@.len() && pists@[i].id_pist == 0 implies (#[trigger] qs@[i])@
            == new_pist_insert_text(id_trk, max_id + 1 + pists@.take(i).filter(is_new_pist()).len(), pists@[i].id_tank) by {
            assert(qs@.map_values(|q: String| q@)[i] == qs@[i]@);
        }
    }
    qs
}

/// Whether a nozzle is new (number 0).
pub open spec fn is_new_pist() -> spec_fn(Pist) -> bool {
    |p: Pist| p.id_pist == 0
}

/// The statement that inserts a new nozzle under number `n` for dispenser `id_trk`, drawing
/// from tank `id_tank`.
pub open spec fn new_pist_insert_text(id_trk: i32, n: int, id_tank: i32) -> Seq<char> {
    "INSERT INTO trk (id_trk,id_pist,id_tank) VALUES ("@ + dec_int(id_trk as int) + ", "@ + dec_int(n)
        + ", \""@ + dec_int(id_tank as int) + "\");"@
}

proof fn lemma_count_is_filter(s: Seq<Pist>)
    ensures
        count_new_pists(s) == s.filter(is_new_pist()).len(),
    decreases s.len(),
{
    reveal(Seq::filter);
    if s.len() > 0 {
        lemma_count_is_filter(s.drop_last());
    }
}

/// New nozzles are numbered on from the greatest stored number, one after another in the
/// order they come: the new nozzle with `j` new nozzles before it is inserted under
/// `max_id + 1 + j`, so a later new nozzle always gets a greater number than an earlier
/// one; every other nozzle is updated in place under its own number.
pub proof fn lemma_new_pists_numbered(pists: Seq<Pist>, id_trk: i32, max_id: i32)
    ensures
        set_pists_sql(pists, id_trk, max_id).len() == pists.len(),
        forall|i: int| 0 <= i < pists.len() && pists[i].id_pist == 0 ==> #[trigger] set_pists_sql(pists, id_trk, max_id)[i]
            == new_pist_insert_text(id_trk, max_id + 1 + pists.take(i).filter(is_new_pist()).len(), pists[i].id_tank),
        forall|i: int| 0 <= i < pists.len() && pists[i].id_pist != 0 ==> #[trigger] set_pists_sql(pists, id_trk, max_id)[i]
            == "UPDATE trk SET id_trk="@ + dec_int(id_trk as int) + ", id_pist="@ + dec_int(pists[i].id_pist as int)
            + ", id_tank="@ + dec_int(pists[i].id_tank as int) + " WHERE id_trk="@ + dec_int(id_trk as int)
            + " AND id_pist="@ + dec_int(pists[i].id_pist as int) + ";"@,
        forall|i: int, k: int| 0 <= i < k < pists.len() && pists[i].id_pist == 0 && pists[k].id_pist == 0
            ==> #[trigger] pists.take(i).filter(is_new_pist()).len() < #[trigger] pists.take(k).filter(is_new_pist()).len(),
{
    assert forall|i: int| 0 <= i < pists.len() && pists[i].id_pist == 0 implies #[trigger] set_pists_sql(pists, id_trk, max_id)[i]
        == new_pist_insert_text(id_trk, max_id + 1 + pists.take(i).filter(is_new_pist()).len(), pists[i].id_tank) by {
        lemma_count_is_filter(pists.take(i));
        lemma_count_is_filter(pists.take(i + 1));
        assert(pists.take(i + 1).drop_last() =~= pists.take(i));
    }
    assert forall|i: int, k: int| 0 <= i < k < pists.len() && pists[i].id_pist == 0 && pists[k].id_pist == 0
        implies #[trigger] pists.take(i).filter(is_new_pist()).len() < #[trigger] pists.take(k).filter(is_new_pist()).len() by {
        lemma_count_is_filter(pists.take(i));
        lemma_count_is_filter(pists.take(i + 1));
        lemma_count_is_filter(pists.take(k));
        assert(pists.take(i + 1).drop_last() =~= pists.take(i));
        lemma_count_new_pists_mono(pists.take(k), i + 1);
        assert(pists.take(k).take(i + 1) =~= pists.take(i + 1));
    }
}

/// The statements that delete a dispenser: with no nozzles named, the dispenser and all
/// its nozzles; else each nozzle named.
pub open spec fn delete_trk_sql(t: Trk_ID) -> Seq<Seq<char>> {
    if t.pists@.len() == 0 {
        seq![
            "DELETE FROM com_trk WHERE id_trk="@ + dec_int(t.id_trk as int) + ";"@,
            "DELETE FROM trk WHERE id_trk="@ + dec_int(t.id_trk as int) + ";"@,
        ]
    } else {
        Seq::new(
            t.pists@.len(),
            |i: int| "DELETE FROM trk WHERE id_trk="@ + dec_int(t.id_trk as int) + " AND id_pist="@
                + dec_int(t.pists@[i].id_pist as int) + ";"@,
        )
    }
}

/// The statements that delete a dispenser or some of its nozzles.
pub fn delete_trk_queries(t: &Trk_ID) -> (qs: Vec<String>)
    ensures
        qs@.map_values(|q: String| q@) == delete_trk_sql(*t),
{
    let mut qs: Vec<String> = Vec::new();
    if t.pists.len() == 0 {
        let mut q = String::from_str("DELETE FROM com_trk WHERE id_trk=");
        push_i32(&mut q, t.id_trk);
        q.append(";");
        qs.push(q);
        let mut q2 = String::from_str("DELETE FROM trk WHERE id_trk=");
        push_i32(&mut q2, t.id_trk);
        q2.append(";");
        qs.push(q2);
        assert(qs@.map_values(|q: String| q@) =~= delete_trk_sql(*t));
        return qs;
    }
    let len = t.pists.len();
    let mut k: usize = 0;
    while k < len
        invariant
            len == t.pists@.len(),
            len > 0,
            k <= len,
            qs@.len() == k,
            forall|i: int| 0 <= i < k ==> #[trigger] qs@[i]@ == delete_trk_sql(*t)[i],
        decreases len - k,
    {
        let mut q = String::from_str("DELETE FROM trk WHERE id_trk=");
        push_i32(&mut q, t.id_trk);
        q.append(" AND id_pist=");
        push_i32(&mut q, t.pists[k].id_pist);
        q.append(";");
        assert(q@ =~= delete_trk_sql(*t)[k as int]);
        qs.push(q);
        k += 1;
    }
    assert(qs@.map_values(|q: String| q@) =~= delete_trk_sql(*t));
    qs
}

/// What the error of a statement that deletes a dispenser names: `DELETE ALL TRK` with no
/// nozzles named, else `DELETE TRK PIST`.
pub fn delete_trk_label(t: &Trk_ID) -> (s: &'static str)
    ensures
        t.pists@.len() == 0 ==> s@ == "DELETE ALL TRK"@,
        t.pists@.len() > 0 ==> s@ == "DELETE TRK PIST"@,
{
    if t.pists.len() == 0 { "DELETE ALL TRK" } else { "DELETE TRK PIST" }
}

/// The value under which the screen size is stored: `W,H`.
pub open spec fn screen_value_text(s: ScreenSize) -> Seq<char> {
    dec_int(s.width as int) + ","@ + dec_int(s.height as int)
}

/// The statement that stores the screen size.
pub open spec fn screen_size_sql(s: ScreenSize) -> Seq<char> {
    "UPDATE loc_const SET value=\""@ + screen_value_text(s) + "\" WHERE descr_var=\"cnst_ScreenSize\";"@
}

/// The statement that stores the screen size.
pub fn screen_size_query(s: &ScreenSize) -> (q: String)
    ensures
        q@ == screen_size_sql(*s),
{
    let mut q = String::from_str("UPDATE loc_const SET value=\"");
    push_i32(&mut q, s.width);
    q.append(",");
    push_i32(&mut q, s.height);
    q.append("\" WHERE descr_var=\"cnst_ScreenSize\";");
    assert(q@ =~= screen_size_sql(*s));
    q
}

/// The query for one product.
pub open spec fn tovar_select_sql(id_tovar: i32) -> Seq<char> {
    "SELECT * FROM tovar WHERE id_tovar="@ + dec_int(id_tovar as int) + " ORDER BY NN;"@
}

/// The query for one product.
pub fn tovar_select_query(id_tovar: i32) -> (q: String)
    ensures
        q@ == tovar_select_sql(id_tovar),
{
    let mut q = String::from_str("SELECT * FROM tovar WHERE id_tovar=");
    push_i32(&mut q, id_tovar);
    q.append(" ORDER BY NN;");
    assert(q@ =~= tovar_select_sql(id_tovar));
    q
}

/// The query for the rows of one dispenser and its nozzles.
pub open spec fn trk_select_sql(id_trk: i32) -> Seq<char> {
    "SELECT com_trk.id_trk, com_trk.x_pos, com_trk.y_pos, com_trk.scale,\n                   trk.id_trk as trk_id_trk, trk.id_pist, trk.id_tank\n            FROM com_trk\n            INNER JOIN trk ON com_trk.id_trk = trk.id_trk WHERE com_trk.id_trk="@
        + dec_int(id_trk as int) + "\n            ORDER BY com_trk.id_trk;"@
}

/// The query for the rows of one dispenser and its nozzles.
pub fn trk_select_query(id_trk: i32) -> (q: String)
    ensures
        q@ == trk_select_sql(id_trk),
{
    let mut q = String::from_str(
        "SELECT com_trk.id_trk, com_trk.x_pos, com_trk.y_pos, com_trk.scale,\n                   trk.id_trk as trk_id_trk, trk.id_pist, trk.id_tank\n            FROM com_trk\n            INNER JOIN trk ON com_trk.id_trk = trk.id_trk WHERE com_trk.id_trk=",
    );
    push_i32(&mut q, id_trk);
    q.append("\n            ORDER BY com_trk.id_trk;");
    assert(q@ =~= trk_select_sql(id_trk));
    q
}


/// The statement that stores the connection record in the local database: inserted when
/// the table holds no row yet, else written over the first row. Its five parameters are
/// the address, login, password, database and port, in that order.
pub fn store_mysql_info_statement(row_count: i64) -> (s: &'static str)
    ensures
        row_count == 0 ==> s@ == "INSERT INTO mysql_db (ip, login, password, database, port) VALUES (?, ?, ?, ?, ?)"@,
        row_count != 0 ==> s@ == "UPDATE mysql_db SET ip=?, login=?, password=?, database=?, port=? WHERE id = (SELECT id FROM mysql_db LIMIT 1)"@,
{
    if row_count == 0 {
        "INSERT INTO mysql_db (ip, login, password, database, port) VALUES (?, ?, ?, ?, ?)"
    } else {
        "UPDATE mysql_db SET ip=?, login=?, password=?, database=?, port=? WHERE id = (SELECT id FROM mysql_db LIMIT 1)"
    }
}

} // verus!
