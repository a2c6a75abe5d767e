//! Stored conversations: the rows kept for projects, sessions and messages,
//! and the time stamps they carry (milliseconds since the Unix epoch,
//! rendered in ISO 8601 for the older interface).
use vstd::prelude::*;
use crate::num::{zero_pad_int, zero_pad_i64_chars};
use crate::text::{chars_of, push_all, push_str, string_of};

verus! {

/// A project row.
#[derive(Debug)]
pub struct ProjectRow {
    pub id: String,
    pub name: String,
    pub path: Option<String>,
    pub source: String,
    pub created_at: i64,
    pub updated_at: i64,
}

/// A session row.
#[derive(Debug)]
pub struct SessionRow {
    pub id: String,
    pub project_id: String,
    pub title: String,
    pub title_source: String,
    pub visible: bool,
    pub created_at: i64,
    pub updated_at: i64,
}

/// A message row.
#[derive(Debug)]
pub struct MessageRow {
    pub id: i64,
    pub session_id: String,
    pub role: String,
    pub content: String,
    pub done: bool,
    pub reasoning: Option<String>,
    pub reasoning_done: bool,
    pub tool_calls: Option<String>,
    pub created_at: i64,
}

/// A session as the older interface shows it.
#[derive(Debug)]
pub struct Session {
    pub id: String,
    pub title: String,
    pub created_at: String,
    pub updated_at: String,
}

/// A message as the older interface shows it.
#[derive(Debug)]
pub struct Message {
    pub id: i64,
    pub session_id: String,
    pub role: String,
    pub content: String,
    pub created_at: String,
}

// ─── Time stamps ───────────────────────────────────────────────────────

/// Milliseconds since the Unix epoch by the system clock
/// (`SystemTime::now().duration_since(UNIX_EPOCH)`, 0 for a clock set
/// before the epoch). Nothing is claimed of the value: it is the time.
#[verifier::external_body]
fn epoch_millis() -> (ms: u128) {
    std::time::SystemTime::now().duration_since(std::time::UNIX_EPOCH).unwrap_or_default().as_millis()
}

/// A count of milliseconds as a stored time stamp (`as i64`, which keeps
/// the low 64 bits).
pub fn millis_to_ts(ms: u128) -> (r: i64)
    ensures
        r == ms as i64,
        ms <= i64::MAX ==> r == ms,
{
    #[verifier::truncate]
    (ms as i64)
}

/// The current time stamp in milliseconds.
pub fn ts_now() -> (r: i64) {
    millis_to_ts(epoch_millis())
}

/// Division rounding toward zero, as Rust's `/` on integers.
pub open spec fn tdiv(a: int, b: int) -> int {
    if a >= 0 {
        a / b
    } else {
        -((-a) / b)
    }
}

/// The remainder of `tdiv`, as Rust's `%` (it has the sign of `a`).
pub open spec fn tmod(a: int, b: int) -> int {
    a - b * tdiv(a, b)
}

/// The civil date (year, month, day) of the day `days` after 1970-01-01
/// in the proleptic Gregorian calendar, computed by eras of 400 years
/// that start on March 1st.
pub open spec fn civil_from_days(days: int) -> (int, int, int) {
    let z = days + 719468;
    let era = z / 146097;
    let doe = z - era * 146097;
    let yoe = (doe - doe / 1460 + doe / 36524 - doe / 146096) / 365;
    let y = yoe + era * 400;
    let doy = doe - (365 * yoe + yoe / 4 - yoe / 100);
    let mp = (5 * doy + 2) / 153;
    let d = doy - (153 * mp + 2) / 5 + 1;
    let m = if mp < 10 {
        mp + 3
    } else {
        mp - 9
    };
    (
        if m <= 2 {
            y + 1
        } else {
            y
        },
        m,
        d,
    )
}

proof fn lemma_floor_div(z: int)
    ensures
        z >= 0 ==> tdiv(z, 146097) == z / 146097,
        z < 0 ==> tdiv(z - 146096, 146097) == z / 146097,
        0 <= z - (z / 146097) * 146097 < 146097,
{
    if z < 0 {
        let q = z / 146097;
        let r = z - q * 146097;
        assert(0 <= r < 146097);
        assert((146096 - z) == (-q) * 146097 + (146096 - r)) by (nonlinear_arith)
            requires
                r == z - q * 146097,
        ;
        assert((146096 - z) / 146097 == -q) by (nonlinear_arith)
            requires
                (146096 - z) == (-q) * 146097 + (146096 - r),
                0 <= 146096 - r < 146097,
        ;
    }
}

proof fn lemma_doy_range(doe: u32)
    by (bit_vector)
    requires
        doe < 146097,
    ensures
        (doe - doe / 1460 + doe / 36524 - doe / 146096) / 365 <= 399,
        doe - (365 * ((doe - doe / 1460 + doe / 36524 - doe / 146096) / 365) + ((doe - doe / 1460 + doe / 36524
            - doe / 146096) / 365) / 4 - ((doe - doe / 1460 + doe / 36524 - doe / 146096) / 365) / 100) <= 365,
        doe >= 365 * ((doe - doe / 1460 + doe / 36524 - doe / 146096) / 365) + ((doe - doe / 1460 + doe / 36524
            - doe / 146096) / 365) / 4 - ((doe - doe / 1460 + doe / 36524 - doe / 146096) / 365) / 100,
{
}

proof fn lemma_month_day_range(doy: u32)
    by (bit_vector)
    requires
        doy <= 365,
    ensures
        (5 * doy + 2) / 153 <= 11,
        (153 * ((5 * doy + 2) / 153) + 2) / 5 <= doy,
        doy - (153 * ((5 * doy + 2) / 153) + 2) / 5 <= 30,
{
}

/// Every day count has a real date: the month is 1 to 12 and the day 1 to
/// 31.
pub proof fn law_civil_date_valid(days: int)
    ensures
        1 <= civil_from_days(days).1 <= 12,
        1 <= civil_from_days(days).2 <= 31,
{
    let z = days + 719468;
    lemma_floor_div(z);
    let era = z / 146097;
    let doe = z - era * 146097;
    lemma_doy_range(doe as u32);
    let yoe = (doe - doe / 1460 + doe / 36524 - doe / 146096) / 365;
    let doy = doe - (365 * yoe + yoe / 4 - yoe / 100);
    lemma_month_day_range(doy as u32);
}

/// The civil date of a day count (days since 1970-01-01; negative before).
pub fn days_to_date(days: i64) -> (r: (i64, u32, u32))
    requires
        days <= i64::MAX - 719468,
    ensures
        (r.0 as int, r.1 as int, r.2 as int) == civil_from_days(days as int),
{
    let z = days + 719468;
    proof {
        lemma_floor_div(z as int);
    }
    let era = if z >= 0 {
        z
    } else {
        z - 146096
    } / 146097;
    let doe = (z - era * 146097) as u32;
    let yoe = (doe - doe / 1460 + doe / 36524 - doe / 146096) / 365;
    let y = yoe as i64 + era * 400;
    let doy = doe - (365 * yoe + yoe / 4 - yoe / 100);
    let mp = (5 * doy + 2) / 153;
    let d = doy - (153 * mp + 2) / 5 + 1;
    let m = if mp < 10 {
        mp + 3
    } else {
        mp - 9
    };
    let y = if m <= 2 {
        y + 1
    } else {
        y
    };
    (y, m, d)
}

/// A time stamp in ISO 8601 with milliseconds and a 'Z', as
/// `format!("{:04}-{:02}-{:02}T{:02}:{:02}:{:02}.{:03}Z", ...)` renders the
/// fields (Rust's `/` and `%` are used, so a stamp before 1970 gives
/// negative time fields).
pub open spec fn iso_text(ts: int) -> Seq<char> {
    let secs = tdiv(ts, 1000);
    let millis = tmod(ts, 1000);
    let days = tdiv(secs, 86400);
    let tod = tmod(secs, 86400);
    let date = civil_from_days(days);
    zero_pad_int(date.0, 4) + "-"@ + zero_pad_int(date.1, 2) + "-"@ + zero_pad_int(date.2, 2)
        + "T"@ + zero_pad_int(tdiv(tod, 3600), 2) + ":"@ + zero_pad_int(
        tdiv(tmod(tod, 3600), 60),
        2,
    ) + ":"@ + zero_pad_int(tmod(tod, 60), 2) + "."@ + zero_pad_int(millis, 3) + "Z"@
}

/// Renders a millisecond time stamp in ISO 8601.
pub fn ts_to_iso(ts: i64) -> (r: String)
    ensures
        r@ == iso_text(ts as int),
{
    let secs = ts / 1000;
    let millis = ts % 1000;
    let days_since_epoch = secs / 86400;
    let time_of_day = secs % 86400;
    let hours = time_of_day / 3600;
    let minutes = (time_of_day % 3600) / 60;
    let seconds = time_of_day % 60;
    let (year, month, day) = days_to_date(days_since_epoch);
    let mut v: Vec<char> = Vec::new();
    let p = zero_pad_i64_chars(year, 4);
    push_all(&mut v, &p);
    push_str(&mut v, "-");
    let p = zero_pad_i64_chars(month as i64, 2);
    push_all(&mut v, &p);
    push_str(&mut v, "-");
    let p = zero_pad_i64_chars(day as i64, 2);
    push_all(&mut v, &p);
    push_str(&mut v, "T");
    let p = zero_pad_i64_chars(hours, 2);
    push_all(&mut v, &p);
    push_str(&mut v, ":");
    let p = zero_pad_i64_chars(minutes, 2);
    push_all(&mut v, &p);
    push_str(&mut v, ":");
    let p = zero_pad_i64_chars(seconds, 2);
    push_all(&mut v, &p);
    push_str(&mut v, ".");
    let p = zero_pad_i64_chars(millis, 3);
    push_all(&mut v, &p);
    push_str(&mut v, "Z");
    string_of(&v)
}

/// Database connection options of the older interface; the local store
/// ignores them.
#[derive(Debug)]
pub struct MySqlOpts {
    pub host: String,
    pub port: u16,
    pub user: String,
    pub password: String,
    pub database: String,
}

/// A fresh identifier: "<milliseconds>-<sequence number>".
pub fn uid(millis: u64, seq: u64) -> (r: String)
    ensures
        r@ == crate::num::dec(millis as nat) + "-"@ + crate::num::dec(seq as nat),
{
    let mut v = crate::num::dec_chars(millis);
    push_str(&mut v, "-");
    let d = crate::num::dec_chars(seq);
    push_all(&mut v, &d);
    string_of(&v)
}

/// The columns a message update sets, in this order, for the fields the
/// update holds: content, done, reasoning, reasoning_done, tool_calls.
pub open spec fn update_columns(content: bool, done: bool, reasoning: bool, reasoning_done: bool, tool_calls: bool) -> Seq<Seq<char>> {
    (if content { seq!["content = ?"@] } else { seq![] }) + (if done { seq!["done = ?"@] } else { seq![] })
        + (if reasoning { seq!["reasoning = ?"@] } else { seq![] }) + (if reasoning_done {
        seq!["reasoning_done = ?"@]
    } else {
        seq![]
    }) + (if tool_calls { seq!["tool_calls = ?"@] } else { seq![] })
}

/// The statement that updates a message (its parameters: the set fields in
/// column order, then the id); `None` when there is nothing to set.
pub fn message_update_sql(content: bool, done: bool, reasoning: bool, reasoning_done: bool, tool_calls: bool) -> (r: Option<String>)
    ensures
        match r {
            None => update_columns(content, done, reasoning, reasoning_done, tool_calls).len() == 0,
            Some(sql) => update_columns(content, done, reasoning, reasoning_done, tool_calls).len() > 0
                && sql@ == "UPDATE messages SET "@ + crate::text::join_lines(
                    update_columns(content, done, reasoning, reasoning_done, tool_calls),
                    ", "@,
                ) + " WHERE id = ?"@,
        },
{
    let mut cols: Vec<Vec<char>> = Vec::new();
    if content {
        cols.push(chars_of("content = ?"));
    }
    if done {
        cols.push(chars_of("done = ?"));
    }
    if reasoning {
        cols.push(chars_of("reasoning = ?"));
    }
    if reasoning_done {
        cols.push(chars_of("reasoning_done = ?"));
    }
    if tool_calls {
        cols.push(chars_of("tool_calls = ?"));
    }
    proof {
        reveal_strlit("content = ?");
        reveal_strlit("done = ?");
        reveal_strlit("reasoning = ?");
        reveal_strlit("reasoning_done = ?");
        reveal_strlit("tool_calls = ?");
    }
    assert(crate::text::views(cols@) =~= update_columns(content, done, reasoning, reasoning_done, tool_calls));
    if cols.len() == 0 {
        return None;
    }
    let sep = chars_of(", ");
    let joined = crate::text::join_chars(&cols, &sep);
    let mut v: Vec<char> = Vec::new();
    push_str(&mut v, "UPDATE messages SET ");
    push_all(&mut v, &joined);
    push_str(&mut v, " WHERE id = ?");
    Some(string_of(&v))
}

// ─── Importing the front end's former local storage ────────────────────

/// A project of the imported data; each field is `None` where the data
/// lacks it or holds a value of another type.
pub struct ImportProject {
    pub id: Option<String>,
    pub name: Option<String>,
    pub path: Option<String>,
    pub source: Option<String>,
    pub created_at: Option<i64>,
    pub updated_at: Option<i64>,
}

/// A conversation of the imported data.
pub struct ImportConversation {
    pub id: Option<String>,
    pub title: Option<String>,
    pub title_source: Option<String>,
    pub visible: Option<bool>,
    pub created_at: Option<i64>,
    pub updated_at: Option<i64>,
}

/// A message of the imported data; `tool_calls` is the JSON text of the
/// tool calls where the message has any.
pub struct ImportMessage {
    pub role: Option<String>,
    pub content: Option<String>,
    pub done: Option<bool>,
    pub reasoning: Option<String>,
    pub reasoning_done: Option<bool>,
    pub tool_calls: Option<String>,
    pub created_at: Option<i64>,
}

/// The text of `o`, or `d` where it is missing.
pub open spec fn text_or(o: Option<String>, d: Seq<char>) -> Seq<char> {
    match o {
        Some(s) => s@,
        None => d,
    }
}

/// The number in `o`, or `d` where it is missing.
pub open spec fn num_or(o: Option<i64>, d: i64) -> i64 {
    match o {
        Some(n) => n,
        None => d,
    }
}

/// The flag in `o`, or `d` where it is missing.
pub open spec fn flag_or(o: Option<bool>, d: bool) -> bool {
    match o {
        Some(b) => b,
        None => d,
    }
}

fn text_or_default(o: &Option<String>, d: &str) -> (r: String)
    ensures
        r@ == text_or(*o, d@),
{
    match o {
        Some(s) => s.clone(),
        None => String::from_str(d),
    }
}

fn copy_text(o: &Option<String>) -> (r: Option<String>)
    ensures
        r == *o,
{
    match o {
        Some(s) => Some(s.clone()),
        None => None,
    }
}

/// The row an imported project becomes: an empty id, the name
/// "未命名项目", the source "local" and the time 0 where the data has none.
pub fn imported_project(p: &ImportProject) -> (r: ProjectRow)
    ensures
        r.id@ == text_or(p.id, seq![]),
        r.name@ == text_or(p.name, "未命名项目"@),
        r.path == p.path,
        r.source@ == text_or(p.source, "local"@),
        r.created_at == num_or(p.created_at, 0),
        r.updated_at == num_or(p.updated_at, 0),
{
    proof {
        reveal_strlit("");
    }
    ProjectRow {
        id: text_or_default(&p.id, ""),
        name: text_or_default(&p.name, "未命名项目"),
        path: copy_text(&p.path),
        source: text_or_default(&p.source, "local"),
        created_at: match p.created_at {
            Some(n) => n,
            None => 0,
        },
        updated_at: match p.updated_at {
            Some(n) => n,
            None => 0,
        },
    }
}

/// The row an imported conversation of project `project_id` becomes: an
/// empty id, the title "未命名会话", the title source "default", visible,
/// and the time 0 where the data has none.
pub fn imported_session(project_id: &str, c: &ImportConversation) -> (r: SessionRow)
    ensures
        r.id@ == text_or(c.id, seq![]),
        r.project_id@ == project_id@,
        r.title@ == text_or(c.title, "未命名会话"@),
        r.title_source@ == text_or(c.title_source, "default"@),
        r.visible == flag_or(c.visible, true),
        r.created_at == num_or(c.created_at, 0),
        r.updated_at == num_or(c.updated_at, 0),
{
    proof {
        reveal_strlit("");
    }
    SessionRow {
        id: text_or_default(&c.id, ""),
        project_id: String::from_str(project_id),
        title: text_or_default(&c.title, "未命名会话"),
        title_source: text_or_default(&c.title_source, "default"),
        visible: match c.visible {
            Some(b) => b,
            None => true,
        },
        created_at: match c.created_at {
            Some(n) => n,
            None => 0,
        },
        updated_at: match c.updated_at {
            Some(n) => n,
            None => 0,
        },
    }
}

/// The row an imported message of session `session_id` becomes (its id is
/// given by the store, 0 here): empty role and content, not done, and the
/// time `now` where the data has none.
pub fn imported_message(session_id: &str, m: &ImportMessage, now: i64) -> (r: MessageRow)
    ensures
        r.id == 0,
        r.session_id@ == session_id@,
        r.role@ == text_or(m.role, seq![]),
        r.content@ == text_or(m.content, seq![]),
        r.done == flag_or(m.done, false),
        r.reasoning == m.reasoning,
        r.reasoning_done == flag_or(m.reasoning_done, false),
        r.tool_calls == m.tool_calls,
        r.created_at == num_or(m.created_at, now),
{
    proof {
        reveal_strlit("");
    }
    MessageRow {
        id: 0,
        session_id: String::from_str(session_id),
        role: text_or_default(&m.role, ""),
        content: text_or_default(&m.content, ""),
        done: match m.done {
            Some(b) => b,
            None => false,
        },
        reasoning: copy_text(&m.reasoning),
        reasoning_done: match m.reasoning_done {
            Some(b) => b,
            None => false,
        },
        tool_calls: copy_text(&m.tool_calls),
        created_at: match m.created_at {
            Some(n) => n,
            None => now,
        },
    }
}

} // verus!
