//! The decisions of the site's pages: the objects they exchange, the order of the login
//! list, which handler serves a request, and the nozzles of the station map.
use vstd::prelude::*;
use vstd::pervasive::VecAdditionalExecFns;
use crate::models::{MyError, Smena, Tank, Tank_ID, Tovar, Tovar_ID, Trk, Trk_ID, User, error_text};
use crate::render_temps::{AuthTemplate, PistForTemplate};

verus! {

/// Whether a request succeeded.
#[derive(Debug, Clone, Copy, PartialEq, Eq, Structural)]
pub struct RequestResult {
    pub status: bool,
}

/// A login request.
#[derive(Debug, Clone, PartialEq, Eq)]
pub struct AuthInfo {
    pub id_user: i32,
    pub password: String,
}

/// A login answer.
#[derive(Debug, Clone, PartialEq, Eq)]
pub struct AuthResult {
    pub id_user: i32,
    pub password: String,
}

/// Dispensers, products and tanks, each list optional.
#[derive(Debug, Clone, PartialEq)]
pub struct AllObject {
    pub trks: Option<Vec<Trk>>,
    pub tovars: Option<Vec<Tovar>>,
    pub tanks: Option<Vec<Tank>>,
}

/// Dispensers, products and tanks named by number, each list optional.
#[allow(non_camel_case_types)]
#[derive(Debug, Clone, PartialEq, Eq)]
pub struct AllObject_ID {
    pub trks: Option<Vec<Trk_ID>>,
    pub tovars: Option<Vec<Tovar_ID>>,
    pub tanks: Option<Vec<Tank_ID>>,
}

/// The place of the first user with this number, if any.
pub open spec fn first_user_with(users: Seq<User>, id_user: i32) -> Option<int> {
    if exists|i: int| 0 <= i < users.len() && users[i].id_user == id_user {
        Some(choose|i: int| 0 <= i < users.len() && users[i].id_user == id_user
            && forall|j: int| 0 <= j < i ==> users[j].id_user != id_user)
    } else {
        None
    }
}

/// The login list: the first user with the shift operator's number changes places with
/// the first user of the list; without such a user the list stays as it is.
pub open spec fn login_order(users: Seq<User>, id_user: i32) -> Seq<User> {
    match first_user_with(users, id_user) {
        Some(i) => users.update(0, users[i]).update(i, users[0]),
        None => users,
    }
}

/// The login list is the same users, each as often as before, and wherever some user has
/// the operator's number, the list begins with such a user (the first of them, whose
/// place the former first user takes); with no such user the list is unchanged.
pub proof fn lemma_login_order_operator_first(users: Seq<User>, id_user: i32)
    ensures
        login_order(users, id_user).len() == users.len(),
        login_order(users, id_user).to_multiset() == users.to_multiset(),
        (exists|i: int| 0 <= i < users.len() && #[trigger] users[i].id_user == id_user) ==> {
            &&& login_order(users, id_user)[0].id_user == id_user
            &&& forall|j: int| 0 <= j < users.len() && users[j].id_user == id_user
                ==> login_order(users, id_user)[0] == users[first_user_with(users, id_user)->0]
        },
        (forall|i: int| 0 <= i < users.len() ==> #[trigger] users[i].id_user != id_user)
            ==> login_order(users, id_user) == users,
{
    broadcast use vstd::seq_lib::group_to_multiset_ensures;
    broadcast use vstd::multiset::group_multiset_axioms;
    if exists|i: int| 0 <= i < users.len() && #[trigger] users[i].id_user == id_user {
        let c = choose|k: int| 0 <= k < users.len() && users[k].id_user == id_user
            && forall|j: int| 0 <= j < k ==> users[j].id_user != id_user;
        assert(exists|k: int| 0 <= k < users.len() && users[k].id_user == id_user
            && forall|j: int| 0 <= j < k ==> users[j].id_user != id_user) by {
            let w = choose|i: int| 0 <= i < users.len() && #[trigger] users[i].id_user == id_user;
            lemma_first_user_exists(users, id_user, w);
        }
        assert(first_user_with(users, id_user) == Some(c));
        let s1 = users.update(0, users[c]);
        let s2 = s1.update(c, users[0]);
        assert(login_order(users, id_user) == s2);
        if c == 0 {
            assert(s2 =~= users);
        } else {
            assert(s1[c] == users[c]);
            let m = users.to_multiset();
            assert(s1.to_multiset() == m.insert(users[c]).remove(users[0]));
            assert(s2.to_multiset() == s1.to_multiset().insert(users[0]).remove(users[c]));
            assert(m.contains(users[0]));
            assert(s2.to_multiset() =~= m);
        }
    } else {
        assert(first_user_with(users, id_user) is None);
    }
}

proof fn lemma_first_user_exists(users: Seq<User>, id_user: i32, w: int)
    requires
        0 <= w < users.len(),
        users[w].id_user == id_user,
    ensures
        exists|k: int| 0 <= k < users.len() && users[k].id_user == id_user
            && forall|j: int| 0 <= j < k ==> users[j].id_user != id_user,
    decreases w,
{
    if exists|j: int| 0 <= j < w && users[j].id_user == id_user {
        let v = choose|j: int| 0 <= j < w && users[j].id_user == id_user;
        lemma_first_user_exists(users, id_user, v);
    } else {
        assert(forall|j: int| 0 <= j < w ==> users[j].id_user != id_user);
    }
}

/// Puts the shift operator first in the login list.
pub fn order_users_for_login(users: Vec<User>, id_user: i32) -> (r: Vec<User>)
    ensures
        r@ == login_order(users@, id_user),
        r@.len() == users@.len(),
        r@.to_multiset() == users@.to_multiset(),
        (exists|i: int| 0 <= i < users@.len() && #[trigger] users@[i].id_user == id_user)
            ==> r@[0].id_user == id_user,
        (forall|i: int| 0 <= i < users@.len() ==> #[trigger] users@[i].id_user != id_user) ==> r@ == users@,
{
    proof {
        lemma_login_order_operator_first(users@, id_user);
    }
    let mut list = users;
    let len = list.len();
    let mut i: usize = 0;
    while i < len
        invariant
            len == list@.len(),
            list@ == users@,
            i <= len,
            forall|j: int| 0 <= j < i ==> list@[j].id_user != id_user,
        decreases len - i,
    {
        if list[i].id_user == id_user {
            proof {
                assert(exists|k: int| 0 <= k < users@.len() && users@[k].id_user == id_user);
                let c = choose|k: int| 0 <= k < users@.len() && users@[k].id_user == id_user
                    && forall|j: int| 0 <= j < k ==> users@[j].id_user != id_user;
                assert(0 <= i < users@.len() && users@[i as int].id_user == id_user
                    && forall|j: int| 0 <= j < i ==> users@[j].id_user != id_user);
                assert(c == i as int) by {
                    if c < i {
                    } else if c > i {
                        assert(users@[i as int].id_user == id_user);
                    }
                }
            }
            let ghost before = list@;
            if i != 0 {
                let mut held = User { id_user: 0, name: String::new(), admin: false };
                list.set_and_swap(i, &mut held);
                list.set_and_swap(0, &mut held);
                list.set_and_swap(i, &mut held);
                assert(list@ =~= before.update(0, before[i as int]).update(i as int, before[0]));
            } else {
                assert(before.update(0, before[0]).update(0, before[0]) =~= before);
            }
            proof {
                lemma_login_order_operator_first(users@, id_user);
            }
            return list;
        }
        i += 1;
    }
    list
}

/// The login page: the shift's state, and the users with its operator first.
pub fn login_template(smena: &Smena, users: Vec<User>) -> (t: AuthTemplate)
    ensures
        t.smena == smena.status,
        t.users@ == login_order(users@, smena.id_user),
{
    AuthTemplate { smena: smena.status, users: order_users_for_login(users, smena.id_user) }
}

/// Which handler serves a request, by the administrator mark that the login check left
/// on it: the administrators' one (`true`), the users' one (`false`), or, on a request
/// that passed no login check, the error `IT IS NOT SITE WITH AUTH`.
pub fn choose_handler(admin: Option<bool>, now: &str) -> (r: Result<bool, MyError>)
    ensures
        admin matches Some(a) ==> r == Ok::<bool, MyError>(a),
        admin is None ==> (r matches Err(e) && e.message() == error_text("LOGIC"@, now@, "IT IS NOT SITE WITH AUTH"@)),
{
    match admin {
        Some(a) => Ok(a),
        None => Err(MyError::logged("LOGIC", now, "IT IS NOT SITE WITH AUTH")),
    }
}


/// The place of the last tank with this number, if any (a later tank of the same number
/// hides an earlier one).
pub open spec fn last_tank_with(tanks: Seq<Tank>, id_tank: i32) -> Option<int>
    decreases tanks.len(),
{
    if tanks.len() == 0 {
        None
    } else if tanks.last().id_tank == id_tank {
        Some(tanks.len() - 1)
    } else {
        last_tank_with(tanks.drop_last(), id_tank)
    }
}

/// The place of the last product with this number, if any (a later product of the same
/// number hides an earlier one).
pub open spec fn last_tovar_with(tovars: Seq<Tovar>, id_tovar: i32) -> Option<int>
    decreases tovars.len(),
{
    if tovars.len() == 0 {
        None
    } else if tovars.last().id_tovar == id_tovar {
        Some(tovars.len() - 1)
    } else {
        last_tovar_with(tovars.drop_last(), id_tovar)
    }
}

/// Whether a nozzle's tank is known, and the product in that tank is known.
pub open spec fn pist_resolves(tovars: Seq<Tovar>, tanks: Seq<Tank>, p: crate::models::Pist) -> bool {
    match last_tank_with(tanks, p.id_tank) {
        Some(i) => last_tovar_with(tovars, tanks[i].id_tovar) is Some,
        None => false,
    }
}

/// Why a nozzle does not resolve: its tank is unknown, or the product in it is.
pub open spec fn pist_failure(tanks: Seq<Tank>, p: crate::models::Pist) -> Seq<char> {
    if last_tank_with(tanks, p.id_tank) is None { "PARSE TANKS"@ } else { "PARSE TOVAR"@ }
}

/// A resolved nozzle on the map: the price, colour and name of the product in its tank.
pub open spec fn pist_template(tovars: Seq<Tovar>, tanks: Seq<Tank>, p: crate::models::Pist) -> PistForTemplate {
    let tank = tanks[last_tank_with(tanks, p.id_tank)->0];
    let tovar = tovars[last_tovar_with(tovars, tank.id_tovar)->0];
    PistForTemplate {
        id_pist: p.id_pist,
        id_tank: p.id_tank,
        price_bits: tovar.price_bits,
        r: tovar.color.r,
        g: tovar.color.g,
        b: tovar.color.b,
        name: tovar.name,
    }
}

/// Whether nozzle `k` of dispenser `t` comes before nozzle `k2` of dispenser `t2`, the
/// dispensers in order and the nozzles of each in order.
pub open spec fn pist_before(t2: int, k2: int, t: int, k: int) -> bool {
    t2 < t || (t2 == t && k2 < k)
}

proof fn lemma_last_tank(tanks: Seq<Tank>, id: i32)
    ensures
        last_tank_with(tanks, id) matches Some(i) ==> 0 <= i < tanks.len() && tanks[i].id_tank == id
            && forall|j: int| i < j < tanks.len() ==> tanks[j].id_tank != id,
        last_tank_with(tanks, id) is None ==> forall|j: int| 0 <= j < tanks.len() ==> tanks[j].id_tank != id,
    decreases tanks.len(),
{
    if tanks.len() > 0 {
        lemma_last_tank(tanks.drop_last(), id);
        let d = tanks.drop_last();
        assert forall|j: int| 0 <= j < d.len() implies d[j] == tanks[j] by {}
    }
}

proof fn lemma_last_tovar(tovars: Seq<Tovar>, id: i32)
    ensures
        last_tovar_with(tovars, id) matches Some(i) ==> 0 <= i < tovars.len() && tovars[i].id_tovar == id
            && forall|j: int| i < j < tovars.len() ==> tovars[j].id_tovar != id,
        last_tovar_with(tovars, id) is None ==> forall|j: int| 0 <= j < tovars.len() ==> tovars[j].id_tovar != id,
    decreases tovars.len(),
{
    if tovars.len() > 0 {
        lemma_last_tovar(tovars.drop_last(), id);
        let d = tovars.drop_last();
        assert forall|j: int| 0 <= j < d.len() implies d[j] == tovars[j] by {}
    }
}

proof fn lemma_last_tank_is(tanks: Seq<Tank>, id: i32, i: int)
    requires
        0 <= i < tanks.len(),
        tanks[i].id_tank == id,
        forall|j: int| i < j < tanks.len() ==> tanks[j].id_tank != id,
    ensures
        last_tank_with(tanks, id) == Some(i),
    decreases tanks.len(),
{
    if i < tanks.len() - 1 {
        let d = tanks.drop_last();
        assert forall|j: int| i < j < d.len() implies d[j].id_tank != id by {
            assert(d[j] == tanks[j]);
        }
        lemma_last_tank_is(d, id, i);
    }
}

proof fn lemma_last_tovar_is(tovars: Seq<Tovar>, id: i32, i: int)
    requires
        0 <= i < tovars.len(),
        tovars[i].id_tovar == id,
        forall|j: int| i < j < tovars.len() ==> tovars[j].id_tovar != id,
    ensures
        last_tovar_with(tovars, id) == Some(i),
    decreases tovars.len(),
{
    if i < tovars.len() - 1 {
        let d = tovars.drop_last();
        assert forall|j: int| i < j < d.len() implies d[j].id_tovar != id by {
            assert(d[j] == tovars[j]);
        }
        lemma_last_tovar_is(d, id, i);
    }
}

/// The place of the last tank with this number.
fn find_tank(tanks: &Vec<Tank>, id_tank: i32) -> (r: Option<usize>)
    ensures
        r matches Some(i) ==> last_tank_with(tanks@, id_tank) == Some(i as int) && i < tanks@.len(),
        r is None ==> last_tank_with(tanks@, id_tank) is None,
{
    let mut i: usize = tanks.len();
    while i > 0
        invariant
            i <= tanks@.len(),
            forall|j: int| i <= j < tanks@.len() ==> tanks@[j].id_tank != id_tank,
        decreases i,
    {
        i -= 1;
        if tanks[i].id_tank == id_tank {
            proof { lemma_last_tank_is(tanks@, id_tank, i as int); }
            return Some(i);
        }
    }
    proof {
        lemma_last_tank(tanks@, id_tank);
        if last_tank_with(tanks@, id_tank) is Some {
            let k = last_tank_with(tanks@, id_tank)->0;
            assert(tanks@[k].id_tank == id_tank);
        }
    }
    None
}

/// The place of the last product with this number.
fn find_tovar(tovars: &Vec<Tovar>, id_tovar: i32) -> (r: Option<usize>)
    ensures
        r matches Some(i) ==> last_tovar_with(tovars@, id_tovar) == Some(i as int) && i < tovars@.len(),
        r is None ==> last_tovar_with(tovars@, id_tovar) is None,
{
    let mut i: usize = tovars.len();
    while i > 0
        invariant
            i <= tovars@.len(),
            forall|j: int| i <= j < tovars@.len() ==> tovars@[j].id_tovar != id_tovar,
        decreases i,
    {
        i -= 1;
        if tovars[i].id_tovar == id_tovar {
            proof { lemma_last_tovar_is(tovars@, id_tovar, i as int); }
            return Some(i);
        }
    }
    proof {
        lemma_last_tovar(tovars@, id_tovar);
        if last_tovar_with(tovars@, id_tovar) is Some {
            let k = last_tovar_with(tovars@, id_tovar)->0;
            assert(tovars@[k].id_tovar == id_tovar);
        }
    }
    None
}

/// The nozzles of each dispenser as the station map shows them. Each nozzle is matched
/// with the last tank of its number and that tank with the last product of its number.
/// The first nozzle, dispensers in order and nozzles in order, that does not match fails
/// the whole: `PARSE TANKS` where its tank is unknown, `PARSE TOVAR` where the product is.
pub fn resolve_trk_pists(tovars: &Vec<Tovar>, tanks: &Vec<Tank>, trks: &Vec<Trk>, now: &str)
    -> (r: Result<Vec<Vec<PistForTemplate>>, MyError>)
    ensures
        r is Ok <==> forall|t: int, k: int| 0 <= t < trks@.len() && 0 <= k < trks@[t].pists@.len()
            ==> pist_resolves(tovars@, tanks@, #[trigger] trks@[t].pists@[k]),
        r matches Ok(v) ==> v@.len() == trks@.len() && forall|t: int| 0 <= t < trks@.len()
            ==> (#[trigger] v@[t])@.len() == trks@[t].pists@.len() && forall|k: int| 0 <= k < trks@[t].pists@.len()
            ==> v@[t]@[k] == pist_template(tovars@, tanks@, trks@[t].pists@[k]),
        r matches Err(e) ==> exists|t: int, k: int| 0 <= t < trks@.len() && 0 <= k < trks@[t].pists@.len()
            && !pist_resolves(tovars@, tanks@, #[trigger] trks@[t].pists@[k])
            && (forall|t2: int, k2: int| 0 <= t2 < trks@.len() && 0 <= k2 < trks@[t2].pists@.len()
                && pist_before(t2, k2, t, k) ==> pist_resolves(tovars@, tanks@, #[trigger] trks@[t2].pists@[k2]))
            && e.message() == error_text("MYSQL"@, now@, pist_failure(tanks@, trks@[t].pists@[k])),
{
    let mut out: Vec<Vec<PistForTemplate>> = Vec::new();
    let n = trks.len();
    let mut t: usize = 0;
    while t < n
        invariant
            n == trks@.len(),
            t <= n,
            out@.len() == t,
            forall|t2: int, k2: int| 0 <= t2 < t && 0 <= k2 < trks@[t2].pists@.len()
                ==> pist_resolves(tovars@, tanks@, #[trigger] trks@[t2].pists@[k2]),
            forall|t2: int| 0 <= t2 < t ==> (#[trigger] out@[t2])@.len() == trks@[t2].pists@.len()
                && forall|k: int| 0 <= k < trks@[t2].pists@.len()
                ==> out@[t2]@[k] == pist_template(tovars@, tanks@, trks@[t2].pists@[k]),
        decreases n - t,
    {
        let trk = &trks[t];
        let mut row: Vec<PistForTemplate> = Vec::new();
        let m = trk.pists.len();
        let mut k: usize = 0;
        while k < m
            invariant
                n == trks@.len(),
                t < n,
                trk == trks@[t as int],
                m == trk.pists@.len(),
                k <= m,
                row@.len() == k,
                forall|t2: int, k2: int| 0 <= t2 < t && 0 <= k2 < trks@[t2].pists@.len()
                    ==> pist_resolves(tovars@, tanks@, #[trigger] trks@[t2].pists@[k2]),
                forall|k2: int| 0 <= k2 < k ==> pist_resolves(tovars@, tanks@, #[trigger] trk.pists@[k2]),
                forall|k2: int| 0 <= k2 < k ==> #[trigger] row@[k2] == pist_template(tovars@, tanks@, trk.pists@[k2]),
            decreases m - k,
        {
            let p = trk.pists[k];
            match find_tank(tanks, p.id_tank) {
                Some(ti) => {
                    let tank = tanks[ti];
                    match find_tovar(tovars, tank.id_tovar) {
                        Some(vi) => {
                            let tovar = &tovars[vi];
                            row.push(PistForTemplate {
                                id_pist: p.id_pist,
                                id_tank: p.id_tank,
                                price_bits: tovar.price_bits,
                                r: tovar.color.r,
                                g: tovar.color.g,
                                b: tovar.color.b,
                                name: tovar.name.clone(),
                            });
                        },
                        None => {
                            let e = MyError::logged("MYSQL", now, "PARSE TOVAR");
                            proof {
                                assert(!pist_resolves(tovars@, tanks@, trks@[t as int].pists@[k as int]));
                                assert(forall|t2: int, k2: int| 0 <= t2 < trks@.len() && 0 <= k2 < trks@[t2].pists@.len()
                                    && pist_before(t2, k2, t as int, k as int) ==> pist_resolves(tovars@, tanks@, #[trigger] trks@[t2].pists@[k2]));
                            }
                            return Err(e);
                        },
                    }
                },
                None => {
                    let e = MyError::logged("MYSQL", now, "PARSE TANKS");
                    proof {
                        assert(!pist_resolves(tovars@, tanks@, trks@[t as int].pists@[k as int]));
                        assert(forall|t2: int, k2: int| 0 <= t2 < trks@.len() && 0 <= k2 < trks@[t2].pists@.len()
                            && pist_before(t2, k2, t as int, k as int) ==> pist_resolves(tovars@, tanks@, #[trigger] trks@[t2].pists@[k2]));
                    }
                    return Err(e);
                },
            }
            k += 1;
        }
        out.push(row);
        t += 1;
    }
    Ok(out)
}

} // verus!
