//! The records of the site, the error type, and the conversions of database rows.
use vstd::prelude::*;

verus! {

/// An error of the site: its text names the source, the time and what failed.
#[derive(Debug)]
pub enum MyError {
    DatabaseError(String),
}

/// The text of an error: `SOURCE|| TIME error: DETAIL` and a line break.
pub open spec fn error_text(source: Seq<char>, now: Seq<char>, detail: Seq<char>) -> Seq<char> {
    source + "|| "@ + now + " error: "@ + detail + "\n"@
}

impl MyError {
    /// The text that the error carries.
    pub open spec fn message(&self) -> Seq<char> {
        match self {
            MyError::DatabaseError(m) => m@,
        }
    }

    /// The error with the text `SOURCE|| NOW error: DETAIL\n`.
    pub fn logged(source: &str, now: &str, detail: &str) -> (e: MyError)
        ensures
            e.message() == error_text(source@, now@, detail@),
    {
        let mut m = String::from_str(source);
        m.append("|| ");
        m.append(now);
        m.append(" error: ");
        m.append(detail);
        m.append("\n");
        assert(m@ =~= error_text(source@, now@, detail@));
        MyError::DatabaseError(m)
    }

    /// The error of a statement that failed: `MYSQL|| NOW error: WHAT \n` (a space after
    /// what failed).
    pub fn statement_failed(now: &str, what: &str) -> (e: MyError)
        ensures
            e.message() == error_text("MYSQL"@, now@, what@ + " "@),
    {
        let mut detail = String::from_str(what);
        detail.append(" ");
        MyError::logged("MYSQL", now, detail.as_str())
    }

    /// Appends the error's text to the error log.
    pub fn pushlog(&self, log: &mut String)
        ensures
            final(log)@ == old(log)@ + self.message(),
    {
        match self {
            MyError::DatabaseError(m) => log.append(m.as_str()),
        }
    }
}

/// The outcome of statements that were run together and awaited together: the first
/// failure in the order the statements were given, or success.
pub fn first_failure(results: Vec<Result<bool, MyError>>) -> (r: Result<bool, MyError>)
    ensures
        (forall|i: int| 0 <= i < results@.len() ==> #[trigger] results@[i] is Ok)
            ==> r == Ok::<bool, MyError>(true),
        r is Err ==> exists|i: int| 0 <= i < results@.len() && r == #[trigger] results@[i]
            && forall|j: int| 0 <= j < i ==> #[trigger] results@[j] is Ok,
        (exists|i: int| 0 <= i < results@.len() && #[trigger] results@[i] is Err) ==> r is Err,
{
    let ghost all = results@;
    let mut rest = results;
    let total = rest.len();
    let mut k: usize = 0;
    while rest.len() > 0
        invariant
            all == results@,
            all.len() == total,
            k + rest@.len() == total,
            rest@ == all.skip(k as int),
            forall|j: int| 0 <= j < k ==> #[trigger] all[j] is Ok,
        decreases rest@.len(),
    {
        let item = rest.remove(0);
        proof {
            assert(item == all[k as int]);
            assert(all.skip(k + 1) =~= rest@);
        }
        match item {
            Ok(_) => {},
            Err(e) => {
                proof {
                    assert(all[k as int] == Err::<bool, MyError>(e));
                }
                return Err(e);
            },
        }
        k += 1;
    }
    Ok(true)
}

/// Where the MySQL database is and how to log in to it.
#[derive(Debug, Clone)]
pub struct MysqlInfo {
    pub ip: String,
    pub login: String,
    pub password: String,
    pub database: String,
    pub port: String,
}

impl MysqlInfo {
    /// All five fields, as text.
    pub open spec fn fields(&self) -> (Seq<char>, Seq<char>, Seq<char>, Seq<char>, Seq<char>) {
        (self.ip@, self.login@, self.password@, self.database@, self.port@)
    }

    /// Whether every field is empty.
    pub open spec fn is_empty_spec(&self) -> bool {
        self.ip@.len() == 0 && self.login@.len() == 0 && self.password@.len() == 0
            && self.database@.len() == 0 && self.port@.len() == 0
    }

    /// The record with every field empty.
    pub fn new() -> (m: MysqlInfo)
        ensures
            m.is_empty_spec(),
    {
        MysqlInfo {
            ip: String::new(),
            login: String::new(),
            password: String::new(),
            database: String::new(),
            port: String::new(),
        }
    }

    /// Whether every field is empty.
    pub fn is_empty(&self) -> (b: bool)
        ensures
            b == self.is_empty_spec(),
    {
        self.ip.as_str().is_empty() && self.login.as_str().is_empty()
            && self.password.as_str().is_empty() && self.database.as_str().is_empty()
            && self.port.as_str().is_empty()
    }

    /// A copy with the same fields.
    pub fn duplicate(&self) -> (m: MysqlInfo)
        ensures
            m == *self,
    {
        MysqlInfo {
            ip: self.ip.clone(),
            login: self.login.clone(),
            password: self.password.clone(),
            database: self.database.clone(),
            port: self.port.clone(),
        }
    }
}

impl PartialEq for MysqlInfo {
    fn eq(&self, other: &MysqlInfo) -> (r: bool) {
        self.ip == other.ip && self.login == other.login && self.password == other.password
            && self.database == other.database && self.port == other.port
    }
}

impl vstd::std_specs::cmp::PartialEqSpecImpl for MysqlInfo {
    open spec fn obeys_eq_spec() -> bool {
        true
    }

    open spec fn eq_spec(&self, other: &MysqlInfo) -> bool {
        self.fields() == other.fields()
    }
}

/// A colour by its red, green and blue parts.
#[derive(Debug, Clone, Copy, PartialEq, Eq, Structural)]
pub struct Color {
    pub r: u8,
    pub g: u8,
    pub b: u8,
}

/// The colour code that the database keeps: `0xRRGGBB`.
pub fn get_rgb(r: u8, g: u8, b: u8) -> (c: u32)
    ensures
        c == r * 65536 + g * 256 + b,
{
    let c = ((r as u32) << 16) | ((g as u32) << 8) | (b as u32);
    assert(((r as u32) << 16) | ((g as u32) << 8) | (b as u32) == r * 65536 + g * 256 + b)
        by (bit_vector);
    c
}

/// The colour that a code of the database stands for: its bytes, from the third lowest
/// to the lowest, taken in two's complement.
pub open spec fn color_of_code(code: i32) -> Color {
    let u = code as u32;
    Color { r: ((u / 65536) % 256) as u8, g: ((u / 256) % 256) as u8, b: (u % 256) as u8 }
}

impl Color {
    /// The colour of a database code.
    pub fn from_db(code: i32) -> (c: Color)
        ensures
            c == color_of_code(code),
    {
        let red = ((code >> 16) & 0xFF) as u8;
        let green = ((code >> 8) & 0xFF) as u8;
        let blue = (code & 0xFF) as u8;
        assert(((code >> 16) & 0xFF) as u8 == (((code as u32) / 65536) % 256) as u8) by (bit_vector);
        assert(((code >> 8) & 0xFF) as u8 == (((code as u32) / 256) % 256) as u8) by (bit_vector);
        assert((code & 0xFF) as u8 == ((code as u32) % 256) as u8) by (bit_vector);
        Color { r: red, g: green, b: blue }
    }
}

/// A colour kept in the database reads back the same.
pub proof fn lemma_color_roundtrip(r: u8, g: u8, b: u8)
    ensures
        color_of_code((r * 65536 + g * 256 + b) as i32) == (Color { r, g, b }),
{
    let c: u32 = (r * 65536 + g * 256 + b) as u32;
    assert(((c as i32) as u32) == c) by (bit_vector)
        requires c < 16777216;
    assert((c / 65536) % 256 == r && (c / 256) % 256 == g && c % 256 == b) by (bit_vector)
        requires c == r * 65536 + g * 256 + b;
}


/// A user of the site, as the login page lists it.
#[derive(Debug, Clone, PartialEq, Eq)]
pub struct User {
    pub id_user: i32,
    pub name: String,
    pub admin: bool,
}

/// A user as the database row gives it.
#[derive(Debug, Clone, PartialEq, Eq)]
pub struct UserDb {
    pub id_user: i32,
    pub name: String,
}

/// The first user number that has administrator rights.
pub const ADMIN_ID_FROM: i32 = 1000000;

/// The screen size that positions on the station map are relative to.
#[derive(Debug, Clone, Copy, PartialEq, Eq, Structural)]
pub struct ScreenSize {
    pub width: i32,
    pub height: i32,
}

/// A fuel tank: which product it holds, its volume and what remains in it.
#[derive(Debug, Clone, Copy, PartialEq, Eq, Structural)]
pub struct Tank {
    pub id_tank: i32,
    pub id_tovar: i32,
    pub volume: i32,
    pub remain: i32,
}

impl Default for Tank {
    fn default() -> (t: Tank)
        ensures
            t == (Tank { id_tank: 0, id_tovar: 0, volume: 0, remain: 0 }),
    {
        Tank { id_tank: 0, id_tovar: 0, volume: 0, remain: 0 }
    }
}

/// A nozzle of a dispenser, and the tank it draws from.
#[derive(Debug, Clone, Copy, PartialEq, Eq, Structural)]
pub struct Pist {
    pub id_pist: i32,
    pub id_tank: i32,
}

impl Default for Pist {
    fn default() -> (p: Pist)
        ensures
            p == (Pist { id_pist: 0, id_tank: 0 }),
    {
        Pist { id_pist: 0, id_tank: 0 }
    }
}

/// One row of the join of dispensers and their nozzles. The scale, a floating-point
/// number, is held by its bits (`f64::to_bits`).
#[derive(Debug, Clone, Copy, PartialEq, Eq, Structural)]
pub struct TrkDb {
    pub id_trk: i32,
    pub x_pos: i32,
    pub y_pos: i32,
    pub scale_bits: u64,
    pub id_pist: i32,
    pub id_tank: i32,
}

/// A dispenser on the station map, with its nozzles. `nn` numbers the dispensers from 1
/// in the order that they were read. The scale is held by its bits (`f64::to_bits`).
#[derive(Debug, Clone, PartialEq)]
pub struct Trk {
    pub nn: i32,
    pub id_trk: i32,
    pub x_pos: i32,
    pub y_pos: i32,
    pub scale_bits: u64,
    pub pists: Vec<Pist>,
}

/// A dispenser as a mathematical value.
pub struct TrkGroup {
    pub nn: int,
    pub id_trk: i32,
    pub x_pos: i32,
    pub y_pos: i32,
    pub scale_bits: u64,
    pub pists: Seq<Pist>,
}

impl View for Trk {
    type V = TrkGroup;

    open spec fn view(&self) -> TrkGroup {
        TrkGroup {
            nn: self.nn as int,
            id_trk: self.id_trk,
            x_pos: self.x_pos,
            y_pos: self.y_pos,
            scale_bits: self.scale_bits,
            pists: self.pists@,
        }
    }
}

impl Default for Trk {
    fn default() -> (t: Trk)
        ensures
            t.nn == 0 && t.id_trk == 0 && t.x_pos == 0 && t.y_pos == 0 && t.scale_bits == 0,
            t.pists@.len() == 0,
    {
        Trk { nn: 0, id_trk: 0, x_pos: 0, y_pos: 0, scale_bits: 0, pists: Vec::new() }
    }
}

/// A product as the database row gives it: the colour is a code `0xRRGGBB`, the price
/// (a floating-point number) is held by its bits (`f32::to_bits`).
#[derive(Debug, Clone, PartialEq, Eq)]
pub struct TovarDb {
    pub id_tovar: i32,
    pub price_bits: u32,
    pub name: String,
    pub name_p: String,
    pub name_p_f: String,
    pub name_p_v: String,
    pub color: i32,
}

/// A product (a kind of fuel) with its price, names and colour. The price is held by
/// its bits (`f32::to_bits`).
#[derive(Debug, Clone, PartialEq, Eq)]
pub struct Tovar {
    pub id_tovar: i32,
    pub price_bits: u32,
    pub name: String,
    pub name_p: String,
    pub name_p_f: String,
    pub name_p_v: String,
    pub color: Color,
}

impl Default for Tovar {
    fn default() -> (t: Tovar)
        ensures
            t.id_tovar == 0 && t.price_bits == 0,
            t.name@.len() == 0 && t.name_p@.len() == 0 && t.name_p_f@.len() == 0
                && t.name_p_v@.len() == 0,
            t.color == (Color { r: 0, g: 0, b: 0 }),
    {
        Tovar {
            id_tovar: 0,
            price_bits: 0,
            name: String::new(),
            name_p: String::new(),
            name_p_f: String::new(),
            name_p_v: String::new(),
            color: Color { r: 0, g: 0, b: 0 },
        }
    }
}

/// A shift as the database row gives it.
#[allow(non_snake_case)]
#[derive(Debug, Clone, Copy, PartialEq, Eq, Structural)]
pub struct SmenaDb {
    pub NN: i32,
    pub NSmen: i32,
    pub id_operator: i32,
    pub status: i32,
}

/// A shift: its row number, its shift number, its operator and whether it is open.
#[derive(Debug, Clone, Copy, PartialEq, Eq, Structural)]
pub struct Smena {
    pub nn: i32,
    pub nn_smena: i32,
    pub id_user: i32,
    pub status: bool,
}

/// A nozzle named by its number.
#[allow(non_camel_case_types)]
#[derive(Debug, Clone, Copy, PartialEq, Eq, Structural)]
pub struct Pist_ID {
    pub id_pist: i32,
}

/// A dispenser named by its number, with some of its nozzles.
#[allow(non_camel_case_types)]
#[derive(Debug, Clone, PartialEq, Eq)]
pub struct Trk_ID {
    pub id_trk: i32,
    pub pists: Vec<Pist_ID>,
}

/// A product named by its number.
#[allow(non_camel_case_types)]
#[derive(Debug, Clone, Copy, PartialEq, Eq, Structural)]
pub struct Tovar_ID {
    pub id_tovar: i32,
}

/// A tank named by its number.
#[allow(non_camel_case_types)]
#[derive(Debug, Clone, Copy, PartialEq, Eq, Structural)]
pub struct Tank_ID {
    pub id_tank: i32,
}

/// The state of the connection to the MySQL database.
#[derive(Debug, Clone, Copy, PartialEq, Eq, Structural)]
pub enum TypesStatus {
    Connected,
    Disconnected,
    Connecting,
}

/// The answer to a question about the connection.
#[derive(Debug, Clone, Copy, PartialEq, Eq, Structural)]
pub struct DbStatus {
    pub status: TypesStatus,
}

} // verus!
