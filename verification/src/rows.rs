//! What the site makes of the rows that its queries return.
use vstd::prelude::*;
use crate::models::{
    Color, MyError, MysqlInfo, Pist, ScreenSize, Smena, SmenaDb, Tank, Tovar, TovarDb, Trk,
    TrkDb, TrkGroup, User, UserDb, ADMIN_ID_FROM, color_of_code, error_text,
};
use crate::text::{dec_int, dec_nat, is_digit, lemma_dec_nat, lemma_parse_fmt_i32, parse_i32, parse_i32_spec};
use crate::queries::screen_value_text;

verus! {

/// Whether row `i` begins a new dispenser: it is the first row, or its dispenser differs
/// from that of the row before it.
pub open spec fn starts_trk(rows: Seq<TrkDb>, i: int) -> bool {
    i == 0 || rows[i].id_trk != rows[i - 1].id_trk
}

/// The nozzle that a row names.
pub open spec fn pist_of_row(r: TrkDb) -> Pist {
    Pist { id_pist: r.id_pist, id_tank: r.id_tank }
}

/// The dispensers that the rows make, in order: each run of rows with the same dispenser
/// becomes one dispenser, numbered from 1, with the position and scale of its first row
/// and the nozzles of all its rows.
pub open spec fn group_trk_rows(rows: Seq<TrkDb>) -> Seq<TrkGroup>
    decreases rows.len(),
{
    if rows.len() == 0 {
        seq![]
    } else {
        let prev = group_trk_rows(rows.drop_last());
        let r = rows.last();
        if starts_trk(rows, rows.len() - 1) {
            prev.push(
                TrkGroup {
                    nn: prev.len() + 1int,
                    id_trk: r.id_trk,
                    x_pos: r.x_pos,
                    y_pos: r.y_pos,
                    scale_bits: r.scale_bits,
                    pists: seq![pist_of_row(r)],
                },
            )
        } else {
            let last = prev.last();
            prev.update(
                prev.len() - 1,
                TrkGroup {
                    nn: last.nn,
                    id_trk: last.id_trk,
                    x_pos: last.x_pos,
                    y_pos: last.y_pos,
                    scale_bits: last.scale_bits,
                    pists: last.pists.push(pist_of_row(r)),
                },
            )
        }
    }
}

/// The dispensers as mathematical values.
pub open spec fn trks_view(trks: Seq<Trk>) -> Seq<TrkGroup> {
    trks.map_values(|t: Trk| t@)
}

proof fn lemma_group_len(rows: Seq<TrkDb>)
    ensures
        group_trk_rows(rows).len() <= rows.len(),
        rows.len() > 0 ==> group_trk_rows(rows).len() > 0,
    decreases rows.len(),
{
    if rows.len() > 0 {
        lemma_group_len(rows.drop_last());
    }
}

proof fn lemma_group_len_mono(rows: Seq<TrkDb>, k: int)
    requires
        0 <= k <= rows.len(),
    ensures
        group_trk_rows(rows.take(k)).len() <= group_trk_rows(rows).len(),
    decreases rows.len() - k,
{
    if k < rows.len() {
        lemma_group_len_mono(rows, k + 1);
        let c = rows.take(k + 1);
        assert(c.drop_last() =~= rows.take(k));
    } else {
        assert(rows.take(k) =~= rows);
    }
}

/// How many dispensers the rows make.
pub fn trk_count(rows: &Vec<TrkDb>) -> (n: usize)
    ensures
        n == group_trk_rows(rows@).len(),
{
    let len = rows.len();
    let mut n: usize = 0;
    let mut k: usize = 0;
    while k < len
        invariant
            len == rows@.len(),
            k <= len,
            n <= k,
            n == group_trk_rows(rows@.take(k as int)).len(),
        decreases len - k,
    {
        let ghost cur = rows@.take(k + 1);
        proof {
            assert(cur.drop_last() =~= rows@.take(k as int));
            assert(cur.last() == rows@[k as int]);
            lemma_group_len(rows@.take(k as int));
        }
        if k == 0 || rows[k].id_trk != rows[k - 1].id_trk {
            n += 1;
        }
        k += 1;
    }
    assert(rows@.take(len as int) =~= rows@);
    n
}

/// The dispensers of the joined rows, as the query for all dispensers reads them.
pub fn trks_from_rows(rows: &Vec<TrkDb>) -> (trks: Vec<Trk>)
    requires
        rows@.len() > 0 ==> rows@[0].id_trk != -1,
        group_trk_rows(rows@).len() <= i32::MAX,
    ensures
        trks_view(trks@) == group_trk_rows(rows@),
{
    let mut trks: Vec<Trk> = Vec::new();
    let mut last_id: i32 = -1;
    let mut n: i32 = 0;
    let len = rows.len();
    let mut k: usize = 0;
    while k < len
        invariant
            len == rows@.len(),
            group_trk_rows(rows@).len() <= i32::MAX,
            k <= len,
            len > 0 ==> rows@[0].id_trk != -1,
            trks_view(trks@) == group_trk_rows(rows@.take(k as int)),
            n as int == trks@.len(),
            k == 0 ==> last_id == -1,
            k > 0 ==> last_id == rows@[k - 1].id_trk,
        decreases len - k,
    {
        let item = rows[k];
        let ghost pre = rows@.take(k as int);
        let ghost cur = rows@.take(k + 1);
        proof {
            assert(cur.drop_last() =~= pre);
            assert(cur.last() == item);
            lemma_group_len(pre);
            lemma_group_len_mono(rows@, k + 1);
            assert(starts_trk(cur, k as int) == (last_id != item.id_trk));
        }
        if last_id != item.id_trk {
            n += 1;
            trks.push(
                Trk {
                    nn: n,
                    id_trk: item.id_trk,
                    x_pos: item.x_pos,
                    y_pos: item.y_pos,
                    scale_bits: item.scale_bits,
                    pists: Vec::new(),
                },
            );
        }
        let ghost mid = trks@;
        let mut t = trks.pop().unwrap();
        t.pists.push(Pist { id_pist: item.id_pist, id_tank: item.id_tank });
        trks.push(t);
        proof {
            assert(trks_view(trks@) =~= group_trk_rows(cur)) by {
                let g = group_trk_rows(cur);
                assert(trks@.len() == g.len());
                assert forall|j: int| 0 <= j < g.len() implies #[trigger] trks_view(trks@)[j] == g[j] by {
                    if j < g.len() - 1 {
                        assert(trks@[j] == mid[j]);
                    } else {
                        assert(t.pists@ =~= mid.last().pists@.push(pist_of_row(item)));
                    }
                }
            }
        }
        last_id = item.id_trk;
        k += 1;
    }
    assert(rows@.take(len as int) =~= rows@);
    trks
}


/// The nozzles of the dispensers, one dispenser after the other.
pub open spec fn all_pists(groups: Seq<TrkGroup>) -> Seq<Pist>
    decreases groups.len(),
{
    if groups.len() == 0 {
        seq![]
    } else {
        all_pists(groups.drop_last()) + groups.last().pists
    }
}

/// Grouping loses no nozzle and adds none: the nozzles of the dispensers, in order, are
/// those of the rows, in order; and the dispensers are numbered 1, 2, 3, ... in order.
pub proof fn lemma_group_keeps_pists(rows: Seq<TrkDb>)
    ensures
        all_pists(group_trk_rows(rows)) == rows.map_values(|r: TrkDb| pist_of_row(r)),
        forall|j: int| 0 <= j < group_trk_rows(rows).len() ==> #[trigger] group_trk_rows(rows)[j].nn == j + 1,
    decreases rows.len(),
{
    if rows.len() > 0 {
        let d = rows.drop_last();
        lemma_group_keeps_pists(d);
        lemma_group_len(d);
        let prev = group_trk_rows(d);
        let g = group_trk_rows(rows);
        assert(rows.map_values(|r: TrkDb| pist_of_row(r)) =~= d.map_values(|r: TrkDb| pist_of_row(r)).push(pist_of_row(rows.last())));
        if starts_trk(rows, rows.len() - 1) {
            assert(g.drop_last() =~= prev);
        } else {
            assert(g.drop_last() =~= prev.drop_last());
            assert(prev =~= prev.drop_last().push(prev.last()));
            assert(all_pists(prev) == all_pists(prev.drop_last()) + prev.last().pists);
            assert(all_pists(g) =~= all_pists(prev) + seq![pist_of_row(rows.last())]);
        }
    }
}

/// Dispensers numbered on from `n`.
pub open spec fn renumbered(gs: Seq<TrkGroup>, n: int) -> Seq<TrkGroup> {
    gs.map_values(
        |g: TrkGroup| TrkGroup {
            nn: g.nn + n,
            id_trk: g.id_trk,
            x_pos: g.x_pos,
            y_pos: g.y_pos,
            scale_bits: g.scale_bits,
            pists: g.pists,
        },
    )
}

proof fn lemma_group_concat(s: Seq<TrkDb>, t: Seq<TrkDb>)
    requires
        s.len() > 0 && t.len() > 0 ==> s.last().id_trk != t[0].id_trk,
    ensures
        group_trk_rows(s + t) == group_trk_rows(s) + renumbered(group_trk_rows(t), group_trk_rows(s).len() as int),
    decreases t.len(),
{
    let n = group_trk_rows(s).len() as int;
    if t.len() == 0 {
        assert(s + t =~= s);
        assert(group_trk_rows(s) + renumbered(group_trk_rows(t), n) =~= group_trk_rows(s));
    } else {
        let u = s + t;
        let t0 = t.drop_last();
        lemma_group_concat(s, t0);
        assert(u.drop_last() =~= s + t0);
        assert(u.last() == t.last());
        if t.len() == 1 {
            assert(starts_trk(u, u.len() - 1));
            assert(starts_trk(t, t.len() - 1));
        } else {
            assert(u[u.len() - 2] == t[t.len() - 2]);
            assert(starts_trk(u, u.len() - 1) == starts_trk(t, t.len() - 1));
        }
        lemma_group_len(t0);
        lemma_group_len(t);
        let gt0 = group_trk_rows(t0);
        let gt = group_trk_rows(t);
        let gu = group_trk_rows(u);
        let expected = group_trk_rows(s) + renumbered(gt, n);
        assert(gu.len() == expected.len());
        assert forall|j: int| 0 <= j < gu.len() implies gu[j] == expected[j] by {
            if j >= n {
                assert(renumbered(gt, n)[j - n] == expected[j]);
                if !starts_trk(t, t.len() - 1) && j - n < gt0.len() - 1 {
                    assert(gt[j - n] == gt0[j - n]);
                }
                if starts_trk(t, t.len() - 1) && j - n < gt0.len() {
                    assert(gt[j - n] == gt0[j - n]);
                }
            }
        }
        assert(gu =~= expected);
    }
}

proof fn lemma_group_one_trk(one: Seq<TrkDb>)
    requires
        one.len() > 0,
        forall|j: int| 0 <= j < one.len() ==> #[trigger] one[j].id_trk == one[0].id_trk,
    ensures
        group_trk_rows(one).len() == 1,
        group_trk_rows(one)[0].nn == 1,
        group_trk_rows(one)[0].id_trk == one[0].id_trk,
    decreases one.len(),
{
    if one.len() > 1 {
        let d = one.drop_last();
        assert forall|j: int| 0 <= j < d.len() implies #[trigger] d[j].id_trk == d[0].id_trk by {
            assert(d[j] == one[j]);
        }
        assert(d[0] == one[0]);
        lemma_group_one_trk(d);
        assert(one[one.len() - 2].id_trk == one[0].id_trk);
        assert(one[one.len() - 1].id_trk == one[0].id_trk);
        assert(!starts_trk(one, one.len() - 1));
    } else {
        assert(one.drop_last() =~= Seq::<TrkDb>::empty());
        assert(group_trk_rows(Seq::<TrkDb>::empty()).len() == 0);
        assert(starts_trk(one, 0));
    }
}

/// Reading one dispenser alone agrees with reading all of them: where the full read
/// holds the dispenser's rows as one run (the queries order the rows by dispenser) and
/// the one-dispenser read gives those same rows, the one read makes a single dispenser,
/// numbered 1, which is the full read's dispenser at that place except for its number.
pub proof fn lemma_one_trk_read_matches_all(before: Seq<TrkDb>, one: Seq<TrkDb>, after: Seq<TrkDb>)
    requires
        one.len() > 0,
        forall|j: int| 0 <= j < one.len() ==> #[trigger] one[j].id_trk == one[0].id_trk,
        before.len() > 0 ==> before.last().id_trk != one[0].id_trk,
        after.len() > 0 ==> after[0].id_trk != one[0].id_trk,
    ensures
        group_trk_rows(one).len() == 1,
        ({
            let k = group_trk_rows(before).len() as int;
            let all = group_trk_rows(before + one + after);
            let g = group_trk_rows(one)[0];
            &&& g.nn == 1
            &&& g.id_trk == one[0].id_trk
            &&& k < all.len()
            &&& all[k] == (TrkGroup {
                nn: k + 1,
                id_trk: g.id_trk,
                x_pos: g.x_pos,
                y_pos: g.y_pos,
                scale_bits: g.scale_bits,
                pists: g.pists,
            })
        }),
{
    lemma_group_one_trk(one);
    lemma_group_concat(before, one);
    let bo = before + one;
    assert(bo.last() == one.last());
    assert(one.last().id_trk == one[0].id_trk);
    lemma_group_concat(bo, after);
    let k = group_trk_rows(before).len() as int;
    let gbo = group_trk_rows(bo);
    assert(gbo.len() == k + 1);
    assert(gbo[k] == renumbered(group_trk_rows(one), k)[0]);
    assert(group_trk_rows(bo + after)[k] == gbo[k]);
    assert(before + one + after == bo + after);
}

/// The dispenser that the query for one dispenser reads: the first of the rows'
/// dispensers, or the default dispenser when there are no rows.
pub fn trk_from_rows(rows: &Vec<TrkDb>) -> (t: Trk)
    requires
        rows@.len() > 0 ==> rows@[0].id_trk != -1,
        group_trk_rows(rows@).len() <= i32::MAX,
    ensures
        rows@.len() == 0 ==> t@ == (TrkGroup { nn: 0, id_trk: 0, x_pos: 0, y_pos: 0, scale_bits: 0, pists: Seq::<Pist>::empty() }),
        rows@.len() > 0 ==> t@ == group_trk_rows(rows@)[0],
{
    if rows.len() == 0 {
        let t = Trk::default();
        assert(t.pists@ =~= Seq::<Pist>::empty());
        return t;
    }
    let mut trks = trks_from_rows(rows);
    proof {
        lemma_group_len(rows@);
        assert(trks_view(trks@)[0] == trks@[0]@);
    }
    trks.remove(0)
}

/// The user that a row names: an administrator from number `ADMIN_ID_FROM` on.
pub open spec fn user_of_row(r: UserDb) -> User {
    User { id_user: r.id_user, name: r.name, admin: r.id_user >= ADMIN_ID_FROM }
}

/// The users of the rows, in order.
pub fn users_from_rows(rows: Vec<UserDb>) -> (users: Vec<User>)
    ensures
        users@ == rows@.map_values(|r: UserDb| user_of_row(r)),
        users@.len() == rows@.len(),
        forall|i: int| 0 <= i < rows@.len() ==> {
            &&& (#[trigger] users@[i]).id_user == rows@[i].id_user
            &&& users@[i].name == rows@[i].name
            &&& users@[i].admin == (rows@[i].id_user >= 1000000)
        },
{
    let mut users: Vec<User> = Vec::new();
    let mut rest = rows;
    let ghost all = rest@;
    let total = rest.len();
    let mut k: usize = 0;
    while rest.len() > 0
        invariant
            all.len() == total,
            k + rest@.len() == all.len(),
            rest@ == all.skip(k as int),
            users@ == all.take(k as int).map_values(|r: UserDb| user_of_row(r)),
        decreases rest@.len(),
    {
        let item = rest.remove(0);
        let mut user = User { id_user: item.id_user, name: item.name, admin: false };
        if user.id_user >= ADMIN_ID_FROM {
            user.admin = true;
        }
        users.push(user);
        proof {
            assert(item == all[k as int]);
            assert(all.take(k + 1).drop_last() =~= all.take(k as int));
            assert(all.skip(k + 1) =~= rest@);
        }
        k += 1;
        assert(users@ =~= all.take(k as int).map_values(|r: UserDb| user_of_row(r)));
    }
    assert(all.take(k as int) =~= all);
    proof {
        assert forall|i: int| 0 <= i < all.len() implies {
            &&& (#[trigger] users@[i]).id_user == all[i].id_user
            &&& users@[i].name == all[i].name
            &&& users@[i].admin == (all[i].id_user >= 1000000)
        } by {
            assert(users@[i] == user_of_row(all[i]));
            lemma_user_keeps_row(all[i]);
        }
    }
    users
}

/// A user read from a row keeps the row's number and name, and is an administrator
/// exactly when numbered 1000000 or more.
pub proof fn lemma_user_keeps_row(r: UserDb)
    ensures
        user_of_row(r).id_user == r.id_user,
        user_of_row(r).name == r.name,
        user_of_row(r).admin == (r.id_user >= 1000000),
{
}

/// The shift of the newest row, or, with no rows, the error `SMENA EMPTY`.
pub fn smena_from_rows(rows: &Vec<SmenaDb>, now: &str) -> (r: Result<Smena, MyError>)
    ensures
        rows@.len() == 0 ==> (r matches Err(e) && e.message() == error_text("MYSQL"@, now@, "SMENA EMPTY"@)),
        rows@.len() > 0 ==> r == Ok::<Smena, MyError>(Smena {
            nn: rows@[0].NN,
            nn_smena: rows@[0].NSmen,
            id_user: rows@[0].id_operator,
            status: rows@[0].status != 0,
        }),
{
    if rows.len() == 0 {
        return Err(MyError::logged("MYSQL", now, "SMENA EMPTY"));
    }
    let row = rows[0];
    Ok(Smena { nn: row.NN, id_user: row.id_operator, status: row.status != 0, nn_smena: row.NSmen })
}

/// The tank of the first row, or the default tank when there are no rows.
pub fn tank_from_rows(rows: &Vec<Tank>) -> (t: Tank)
    ensures
        t == (if rows@.len() == 0 { Tank { id_tank: 0, id_tovar: 0, volume: 0, remain: 0 } } else { rows@[0] }),
{
    if rows.len() == 0 {
        Tank::default()
    } else {
        rows[0]
    }
}

/// The product that a row describes, with its colour code read as a colour.
pub open spec fn tovar_of_row(r: TovarDb) -> Tovar {
    Tovar {
        id_tovar: r.id_tovar,
        price_bits: r.price_bits,
        name: r.name,
        name_p: r.name_p,
        name_p_f: r.name_p_f,
        name_p_v: r.name_p_v,
        color: color_of_code(r.color),
    }
}

/// The product of a row.
pub fn tovar_of(item: TovarDb) -> (t: Tovar)
    ensures
        t == tovar_of_row(item),
        t.id_tovar == item.id_tovar,
        t.price_bits == item.price_bits,
        t.name == item.name,
        t.name_p == item.name_p,
        t.name_p_f == item.name_p_f,
        t.name_p_v == item.name_p_v,
        t.color.r as int == ((item.color as u32) / 65536) % 256,
        t.color.g as int == ((item.color as u32) / 256) % 256,
        t.color.b as int == (item.color as u32) % 256,
{
    proof {
        lemma_tovar_keeps_row(item);
    }
    Tovar {
        id_tovar: item.id_tovar,
        price_bits: item.price_bits,
        name: item.name,
        name_p: item.name_p,
        name_p_f: item.name_p_f,
        name_p_v: item.name_p_v,
        color: Color::from_db(item.color),
    }
}

/// A product read from a row keeps every field of the row under the same name; its
/// colour is the row's code split into its bytes `0xRRGGBB` (two's complement).
pub proof fn lemma_tovar_keeps_row(r: TovarDb)
    ensures
        tovar_of_row(r).id_tovar == r.id_tovar,
        tovar_of_row(r).price_bits == r.price_bits,
        tovar_of_row(r).name == r.name,
        tovar_of_row(r).name_p == r.name_p,
        tovar_of_row(r).name_p_f == r.name_p_f,
        tovar_of_row(r).name_p_v == r.name_p_v,
        tovar_of_row(r).color.r as int == ((r.color as u32) / 65536) % 256,
        tovar_of_row(r).color.g as int == ((r.color as u32) / 256) % 256,
        tovar_of_row(r).color.b as int == (r.color as u32) % 256,
{
    let u = r.color as u32;
    assert((u / 65536) % 256 < 256 && (u / 256) % 256 < 256 && u % 256 < 256) by (bit_vector);
}

/// The products of the rows, in order.
pub fn tovars_from_rows(rows: Vec<TovarDb>) -> (tovars: Vec<Tovar>)
    ensures
        tovars@ == rows@.map_values(|r: TovarDb| tovar_of_row(r)),
        tovars@.len() == rows@.len(),
        forall|i: int| 0 <= i < rows@.len() ==> {
            &&& (#[trigger] tovars@[i]).id_tovar == rows@[i].id_tovar
            &&& tovars@[i].price_bits == rows@[i].price_bits
            &&& tovars@[i].name == rows@[i].name
            &&& tovars@[i].name_p == rows@[i].name_p
            &&& tovars@[i].name_p_f == rows@[i].name_p_f
            &&& tovars@[i].name_p_v == rows@[i].name_p_v
            &&& tovars@[i].color.r as int == ((rows@[i].color as u32) / 65536) % 256
            &&& tovars@[i].color.g as int == ((rows@[i].color as u32) / 256) % 256
            &&& tovars@[i].color.b as int == (rows@[i].color as u32) % 256
        },
{
    let mut tovars: Vec<Tovar> = Vec::new();
    let mut rest = rows;
    let ghost all = rest@;
    let total = rest.len();
    let mut k: usize = 0;
    while rest.len() > 0
        invariant
            all.len() == total,
            k + rest@.len() == all.len(),
            rest@ == all.skip(k as int),
            tovars@ == all.take(k as int).map_values(|r: TovarDb| tovar_of_row(r)),
        decreases rest@.len(),
    {
        let item = rest.remove(0);
        proof {
            assert(item == all[k as int]);
            assert(all.take(k + 1).drop_last() =~= all.take(k as int));
            assert(all.skip(k + 1) =~= rest@);
        }
        tovars.push(tovar_of(item));
        k += 1;
        assert(tovars@ =~= all.take(k as int).map_values(|r: TovarDb| tovar_of_row(r)));
    }
    assert(all.take(k as int) =~= all);
    proof {
        assert forall|i: int| 0 <= i < all.len() implies #[trigger] tovars@[i] == tovar_of_row(all[i]) by {}
        assert forall|i: int| 0 <= i < all.len() implies tovar_of_row(#[trigger] all[i]).name_p_f == all[i].name_p_f by {
            lemma_tovar_keeps_row(all[i]);
        }
        assert forall|i: int| 0 <= i < all.len() implies {
            &&& (#[trigger] tovars@[i]).id_tovar == all[i].id_tovar
            &&& tovars@[i].price_bits == all[i].price_bits
            &&& tovars@[i].name == all[i].name
            &&& tovars@[i].name_p == all[i].name_p
            &&& tovars@[i].name_p_f == all[i].name_p_f
            &&& tovars@[i].name_p_v == all[i].name_p_v
            &&& tovars@[i].color.r as int == ((all[i].color as u32) / 65536) % 256
            &&& tovars@[i].color.g as int == ((all[i].color as u32) / 256) % 256
            &&& tovars@[i].color.b as int == (all[i].color as u32) % 256
        } by {
            lemma_tovar_keeps_row(all[i]);
        }
    }
    tovars
}

/// The product of the first row, or the default product when there are no rows.
pub fn tovar_from_rows(rows: Vec<TovarDb>) -> (t: Tovar)
    ensures
        rows@.len() > 0 ==> t == tovar_of_row(rows@[0]),
        rows@.len() > 0 ==> t.id_tovar == rows@[0].id_tovar && t.price_bits == rows@[0].price_bits
            && t.name == rows@[0].name && t.name_p == rows@[0].name_p && t.name_p_f == rows@[0].name_p_f
            && t.name_p_v == rows@[0].name_p_v,
        rows@.len() == 0 ==> t.id_tovar == 0 && t.price_bits == 0 && t.name@.len() == 0
            && t.name_p@.len() == 0 && t.name_p_f@.len() == 0 && t.name_p_v@.len() == 0
            && t.color == (Color { r: 0, g: 0, b: 0 }),
{
    let mut rows = rows;
    if rows.len() == 0 {
        return Tovar::default();
    }
    tovar_of(rows.remove(0))
}

/// The rows of product `id_tovar`.
pub open spec fn rows_of_tovar(id_tovar: i32) -> spec_fn(TovarDb) -> bool {
    |r: TovarDb| r.id_tovar == id_tovar
}

/// Reading one product alone agrees with reading all of them: where the one-product read
/// gives the rows of the full read that belong to the product, in the same order (both
/// queries order by the same column), it finds nothing exactly where no product has that
/// number, and else the first product of that number among those the full read gives.
pub proof fn lemma_one_tovar_read_matches_all(all: Seq<TovarDb>, id_tovar: i32)
    ensures
        ({
            let one = all.filter(rows_of_tovar(id_tovar));
            &&& (one.len() == 0 <==> forall|j: int| 0 <= j < all.len() ==> #[trigger] all[j].id_tovar != id_tovar)
            &&& one.len() > 0 ==> exists|j: int| 0 <= j < all.len() && #[trigger] all[j].id_tovar == id_tovar
                && (forall|i: int| 0 <= i < j ==> all[i].id_tovar != id_tovar)
                && tovar_of_row(one[0]) == all.map_values(|r: TovarDb| tovar_of_row(r))[j]
        }),
    decreases all.len(),
{
    let p = rows_of_tovar(id_tovar);
    let one = all.filter(p);
    if all.len() > 0 {
        let d = all.drop_last();
        lemma_one_tovar_read_matches_all(d, id_tovar);
        let od = d.filter(p);
        reveal(Seq::filter);
        assert(one == (if p(all.last()) { od.push(all.last()) } else { od }));
        assert forall|j: int| 0 <= j < d.len() implies d[j] == all[j] by {}
        if od.len() > 0 {
            let j = choose|j: int| 0 <= j < d.len() && #[trigger] d[j].id_tovar == id_tovar
                && (forall|i: int| 0 <= i < j ==> d[i].id_tovar != id_tovar)
                && tovar_of_row(od[0]) == d.map_values(|r: TovarDb| tovar_of_row(r))[j];
            assert(one[0] == od[0]);
            assert(all[j] == d[j]);
            assert(forall|i: int| 0 <= i < j ==> all[i].id_tovar != id_tovar) by {
                assert forall|i: int| 0 <= i < j implies all[i].id_tovar != id_tovar by {
                    assert(all[i] == d[i]);
                }
            }
            assert(all.map_values(|r: TovarDb| tovar_of_row(r))[j] == tovar_of_row(all[j]));
        } else if p(all.last()) {
            let j = all.len() - 1;
            assert(one[0] == all.last());
            assert(all[j].id_tovar == id_tovar);
            assert(forall|i: int| 0 <= i < j ==> all[i].id_tovar != id_tovar) by {
                assert forall|i: int| 0 <= i < j implies all[i].id_tovar != id_tovar by {
                    assert(all[i] == d[i]);
                    assert(d[i].id_tovar != id_tovar);
                }
            }
            assert(all.map_values(|r: TovarDb| tovar_of_row(r))[j] == tovar_of_row(all[j]));
        } else {
            assert forall|j: int| 0 <= j < all.len() implies #[trigger] all[j].id_tovar != id_tovar by {
                if j < d.len() {
                    assert(all[j] == d[j]);
                    assert(d[j].id_tovar != id_tovar);
                }
            }
        }
    } else {
        reveal(Seq::filter);
        assert(one.len() == 0);
    }
}

/// The station's number: the first value read, or the error `EMPTY AZS ID`.
pub fn azs_id_from_rows(rows: &Vec<String>, now: &str) -> (r: Result<String, MyError>)
    ensures
        rows@.len() > 0 ==> (r matches Ok(id) && id@ == rows@[0]@),
        rows@.len() == 0 ==> (r matches Err(e) && e.message() == error_text("MYSQL"@, now@, "EMPTY AZS ID"@)),
{
    if rows.len() > 0 {
        Ok(rows[0].clone())
    } else {
        Err(MyError::logged("MYSQL", now, "EMPTY AZS ID"))
    }
}

/// The connection record of the first row, or the empty record when there are no rows.
pub fn mysql_info_from_rows(rows: &Vec<MysqlInfo>) -> (m: MysqlInfo)
    ensures
        rows@.len() > 0 ==> m == rows@[0],
        rows@.len() == 0 ==> m.is_empty_spec(),
{
    if rows.len() != 0 {
        rows[0].duplicate()
    } else {
        MysqlInfo::new()
    }
}

/// What a read of the stored connection record gives: the first row, or the empty record
/// when there are none, where the read succeeded; where it failed with text `detail`, the
/// error `SQLITE|| NOW error: DETAIL\n`. Both readers of the record answer by it.
pub fn stored_record_from_read(read: Result<Vec<MysqlInfo>, String>, now: &str) -> (r: Result<MysqlInfo, MyError>)
    ensures
        read matches Ok(rows) ==> (r matches Ok(m) && (rows@.len() > 0 ==> m == rows@[0])
            && (rows@.len() == 0 ==> m.is_empty_spec())),
        read matches Err(detail) ==> (r matches Err(e) && e.message() == error_text("SQLITE"@, now@, detail@)),
{
    match read {
        Ok(rows) => Ok(mysql_info_from_rows(&rows)),
        Err(detail) => Err(MyError::logged("SQLITE", now, detail.as_str())),
    }
}

/// Whether a login is accepted: the first password read equals the one given. An
/// accepted user from number `ADMIN_ID_FROM` on is marked an administrator; otherwise the
/// mark is left as it was.
pub fn check_password(passwords: &Vec<String>, id_user: i32, password: &String, is_admin: &mut bool) -> (ok: bool)
    ensures
        ok == (passwords@.len() > 0 && passwords@[0]@ == password@),
        *final(is_admin) == (if ok && id_user >= ADMIN_ID_FROM { true } else { *old(is_admin) }),
{
    if passwords.len() > 0 && passwords[0] == *password {
        if id_user >= ADMIN_ID_FROM {
            *is_admin = true;
        }
        true
    } else {
        false
    }
}

/// The greatest nozzle number of a dispenser as read, or the error `MAX PIST ERROR`.
pub fn max_pist_from_rows(rows: &Vec<i32>, now: &str) -> (r: Result<i32, MyError>)
    ensures
        rows@.len() > 0 ==> r == Ok::<i32, MyError>(rows@[0]),
        rows@.len() == 0 ==> (r matches Err(e) && e.message() == error_text("MYSQL"@, now@, "MAX PIST ERROR"@)),
{
    if rows.len() == 0 {
        return Err(MyError::logged("MYSQL", now, "MAX PIST ERROR"));
    }
    Ok(rows[0])
}


/// How many commas `s` holds.
pub open spec fn count_commas(s: Seq<char>) -> nat
    decreases s.len(),
{
    if s.len() == 0 {
        0
    } else {
        (if s[0] == ',' { 1nat } else { 0nat }) + count_commas(s.drop_first())
    }
}

/// The part of `s` before its first comma (all of `s` when it has none).
pub open spec fn before_comma(s: Seq<char>) -> Seq<char>
    decreases s.len(),
{
    if s.len() == 0 {
        s
    } else if s[0] == ',' {
        seq![]
    } else {
        seq![s[0]] + before_comma(s.drop_first())
    }
}

/// The screen size that a stored value `W,H` gives: `None` unless the value has exactly
/// one comma; the width is the number before the comma, 0 where it does not read as an
/// `i32`; the height is read from that same part.
pub open spec fn screen_size_of_value(s: Seq<char>) -> Option<ScreenSize> {
    if count_commas(s) != 1 {
        None
    } else {
        let w = match parse_i32_spec(before_comma(s)) {
            Some(v) => v,
            None => 0i32,
        };
        Some(ScreenSize { width: w, height: w })
    }
}

proof fn lemma_before_comma_prefix(s: Seq<char>, k: int)
    requires
        0 <= k <= s.len(),
        forall|m: int| 0 <= m < k ==> s[m] != ',',
    ensures
        k < s.len() && s[k] == ',' ==> before_comma(s) == s.take(k),
        k == s.len() ==> before_comma(s) == s,
        count_commas(s) == count_commas(s.skip(k)),
    decreases k,
{
    if k > 0 {
        let t = s.drop_first();
        lemma_before_comma_prefix(t, k - 1);
        assert(t.skip(k - 1) =~= s.skip(k));
        if k < s.len() && s[k] == ',' {
            assert(t.take(k - 1) =~= s.take(k).drop_first());
            assert(s.take(k) =~= seq![s[0]] + t.take(k - 1));
        }
        if k == s.len() {
            assert(s =~= seq![s[0]] + t);
        }
    } else {
        assert(s.skip(0) =~= s);
        if s.len() > 0 && s[0] == ',' {
            assert(s.take(0) =~= Seq::<char>::empty());
        }
        if s.len() == 0 {
            assert(before_comma(s) == s);
        }
    }
}

/// The screen size of a stored value, or the error `PARSE SCREEN  ` when it does not
/// hold exactly one comma.
pub fn screen_size_from_value(value: &str, now: &str) -> (r: Result<ScreenSize, MyError>)
    ensures
        screen_size_of_value(value@) matches Some(z) ==> r == Ok::<ScreenSize, MyError>(z),
        screen_size_of_value(value@) is None ==> (r matches Err(e)
            && e.message() == error_text("MYSQL"@, now@, "PARSE SCREEN  "@)),
{
    let len = value.unicode_len();
    let mut k: usize = 0;
    while k < len && value.get_char(k) != ','
        invariant
            len == value@.len(),
            k <= len,
            forall|m: int| 0 <= m < k ==> value@[m] != ',',
        decreases len - k,
    {
        k += 1;
    }
    proof {
        lemma_before_comma_prefix(value@, k as int);
    }
    if k == len {
        assert(value@.skip(k as int) =~= Seq::<char>::empty());
        return Err(MyError::logged("MYSQL", now, "PARSE SCREEN  "));
    }
    let mut j: usize = k + 1;
    let ghost tail = value@.skip(k + 1);
    proof {
        assert(value@.skip(k as int).drop_first() =~= tail);
    }
    while j < len && value.get_char(j) != ','
        invariant
            len == value@.len(),
            k < j <= len,
            tail == value@.skip(k + 1),
            forall|m: int| 0 <= m < j - (k + 1) ==> tail[m] != ',',
        decreases len - j,
    {
        assert(tail[j - (k + 1)] == value@[j as int]);
        j += 1;
    }
    proof {
        lemma_before_comma_prefix(tail, j - (k + 1));
        assert(tail.skip(j - (k + 1)) =~= value@.skip(j as int));
        if j < len {
            assert(value@.skip(j as int)[0] == ',');
        } else {
            assert(value@.skip(j as int) =~= Seq::<char>::empty());
        }
    }
    if j < len {
        return Err(MyError::logged("MYSQL", now, "PARSE SCREEN  "));
    }
    let first = value.substring_char(0, k);
    let w = match parse_i32(first) {
        Some(v) => v,
        None => 0,
    };
    Ok(ScreenSize { width: w, height: w })
}

/// The screen size read from the stored values: 0 by 0 when nothing is stored, else
/// that of the first value.
pub fn screen_size_from_rows(values: &Vec<String>, now: &str) -> (r: Result<ScreenSize, MyError>)
    ensures
        values@.len() == 0 ==> r == Ok::<ScreenSize, MyError>(ScreenSize { width: 0, height: 0 }),
        values@.len() > 0 ==> (screen_size_of_value(values@[0]@) matches Some(z) ==> r == Ok::<ScreenSize, MyError>(z)),
        values@.len() > 0 ==> (screen_size_of_value(values@[0]@) is None ==> (r matches Err(e)
            && e.message() == error_text("MYSQL"@, now@, "PARSE SCREEN  "@))),
{
    if values.len() == 0 {
        Ok(ScreenSize { width: 0, height: 0 })
    } else {
        screen_size_from_value(values[0].as_str(), now)
    }
}


proof fn lemma_dec_int_no_comma(i: int)
    ensures
        forall|m: int| 0 <= m < dec_int(i).len() ==> #[trigger] dec_int(i)[m] != ',',
{
    if i < 0 {
        let n: nat = (-i) as nat;
        lemma_dec_nat(n);
        assert forall|m: int| 0 <= m < dec_int(i).len() implies #[trigger] dec_int(i)[m] != ',' by {
            if m > 0 {
                assert(dec_int(i)[m] == dec_nat(n)[m - 1]);
                assert(is_digit(dec_nat(n)[m - 1]));
            }
        }
    } else {
        lemma_dec_nat(i as nat);
        assert forall|m: int| 0 <= m < dec_int(i).len() implies #[trigger] dec_int(i)[m] != ',' by {
            assert(is_digit(dec_nat(i as nat)[m]));
        }
    }
}

/// Reading back a stored screen size gives its width as both width and height; so a
/// square screen size reads back as it was stored.
pub proof fn lemma_screen_size_roundtrip(s: ScreenSize)
    ensures
        screen_size_of_value(screen_value_text(s)) == Some(ScreenSize { width: s.width, height: s.width }),
        s.width == s.height ==> screen_size_of_value(screen_value_text(s)) == Some(s),
{
    reveal_strlit(",");
    let a = dec_int(s.width as int);
    let b = dec_int(s.height as int);
    let v = screen_value_text(s);
    lemma_dec_int_no_comma(s.width as int);
    lemma_dec_int_no_comma(s.height as int);
    assert(v =~= a + seq![','] + b);
    assert forall|m: int| 0 <= m < a.len() implies v[m] != ',' by {
        assert(v[m] == a[m]);
    }
    lemma_before_comma_prefix(v, a.len() as int);
    assert(v.take(a.len() as int) =~= a);
    let rest = v.skip(a.len() as int);
    assert(rest.drop_first() =~= b);
    lemma_before_comma_prefix(b, b.len() as int);
    assert(b.skip(b.len() as int) =~= Seq::<char>::empty());
    assert(count_commas(rest) == 1 + count_commas(b));
    lemma_parse_fmt_i32(s.width);
}

} // verus!
