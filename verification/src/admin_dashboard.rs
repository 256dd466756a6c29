//! Administration dashboard: statistics gathered from the database's parts
//! and their rendering as text for a terminal.

use vstd::prelude::*;
use vstd::string::StringExecFns;
use chrono::DateTime;
use crate::auth::{AuthManager, Role, UserView, User, user_views, active_sessions};
use crate::backup::{BackupMetadata, BackupType};
use crate::clock::current_timestamp;
use crate::connection_pool::PoolStats;
use crate::replication::{NodeRole, ReplicationStats};
use crate::text::{
    decimal, u64_to_string, usize_to_string, chars_of, string_from_chars, str_equal, utf8_len, is_byte_boundary,
    cut_bytes, cut_to_bytes, prefix_within_bytes, lemma_utf8_len_grows,
};
use crate::graph::{Entity, EntityView, Graph, lists_values};
use vstd::string::StrSliceExecFns;

verus! {

// ---------------------------------------------------------------------
// Statistics
// ---------------------------------------------------------------------

/// Database statistics.
#[derive(Debug, Clone)]
pub struct DatabaseStats {
    pub entity_count: usize,
    pub edge_count: usize,
    pub total_properties: usize,
    pub collections: Vec<String>,
}

/// Users by role.
#[derive(Debug, Clone, Copy)]
pub struct RoleBreakdown {
    pub admin_count: usize,
    pub readwrite_count: usize,
    pub readonly_count: usize,
}

/// Authentication statistics.
#[derive(Debug, Clone, Copy)]
pub struct AuthStats {
    pub total_users: usize,
    pub active_sessions: usize,
    pub users_by_role: RoleBreakdown,
}

/// Transaction statistics.
#[derive(Debug, Clone, Copy)]
pub struct TransactionStats {
    pub active_transactions: usize,
    pub committed_transactions: usize,
    pub rollbacked_transactions: usize,
}

/// Dashboard statistics.
#[derive(Debug, Clone)]
pub struct DashboardStats {
    /// Database statistics
    pub database: DatabaseStats,
    /// Connection pool statistics
    pub pool: Option<PoolStats>,
    /// Replication statistics
    pub replication: Option<ReplicationStats>,
    /// Authentication statistics
    pub auth: AuthStats,
    /// Transaction statistics
    pub transactions: TransactionStats,
    /// System uptime
    pub uptime_seconds: u64,
}

// ---------------------------------------------------------------------
// Text helpers
// ---------------------------------------------------------------------

/// `n` spaces.
pub open spec fn spaces(n: nat) -> Seq<char> {
    Seq::new(n, |i: int| ' ')
}

/// `s` right-aligned in a field of `w` characters (`{:>w}`).
pub open spec fn pad_left(s: Seq<char>, w: nat) -> Seq<char> {
    if s.len() >= w {
        s
    } else {
        spaces((w - s.len()) as nat) + s
    }
}

/// `s` cut to its first `w` bytes of UTF-8, or padded with one space for
/// each byte it falls short of `w`.
pub open spec fn pad_right_spec(s: Seq<char>, w: nat) -> Seq<char> {
    if utf8_len(s) >= w {
        cut_bytes(s, w)
    } else {
        s + spaces((w - utf8_len(s)) as nat)
    }
}

/// The text of a boolean, as `Display` prints it.
pub open spec fn bool_text(b: bool) -> Seq<char> {
    if b {
        "true"@
    } else {
        "false"@
    }
}

fn spaces_exec(n: usize) -> (r: Vec<char>)
    ensures
        r@ == spaces(n as nat),
{
    let mut v: Vec<char> = Vec::new();
    let mut i: usize = 0;
    while i < n
        invariant
            i <= n,
            v@ == spaces(i as nat),
        decreases n - i,
    {
        v.push(' ');
        i = i + 1;
        assert(v@ =~= spaces(i as nat));
    }
    v
}

/// `s` right-aligned in a field of `w` characters.
fn pad_left_text(s: &str, w: usize) -> (r: String)
    ensures
        r@ == pad_left(s@, w as nat),
{
    let chars = chars_of(s);
    if chars.len() >= w {
        return string_from_chars(&chars);
    }
    let mut v = spaces_exec(w - chars.len());
    let mut i: usize = 0;
    let ghost pre = v@;
    while i < chars.len()
        invariant
            i <= chars@.len(),
            chars@ == s@,
            v@ == pre + chars@.subrange(0, i as int),
        decreases chars.len() - i,
    {
        v.push(chars[i]);
        i = i + 1;
        assert(v@ =~= pre + chars@.subrange(0, i as int));
    }
    assert(chars@.subrange(0, chars@.len() as int) =~= chars@);
    string_from_chars(&v)
}

/// A `u64` in decimal, right-aligned in a field of `w` characters.
fn pad_u64(n: u64, w: usize) -> (r: String)
    ensures
        r@ == pad_left(decimal(n as nat), w as nat),
{
    let t = u64_to_string(n);
    pad_left_text(t.as_str(), w)
}

/// A `usize` in decimal, right-aligned in a field of `w` characters.
fn pad_usize(n: usize, w: usize) -> (r: String)
    ensures
        r@ == pad_left(decimal(n as nat), w as nat),
{
    let t = usize_to_string(n);
    pad_left_text(t.as_str(), w)
}

/// Appends `a`, `b` and `c`.
fn push3(out: &mut String, a: &str, b: &str, c: &str)
    ensures
        final(out)@ == old(out)@ + (a@ + b@ + c@),
{
    out.append(a);
    out.append(b);
    out.append(c);
    assert(out@ =~= old(out)@ + (a@ + b@ + c@));
}

/// Appends `a`.
fn push1(out: &mut String, a: &str)
    ensures
        final(out)@ == old(out)@ + a@,
{
    out.append(a);
}

// ---------------------------------------------------------------------
// Small formatters
// ---------------------------------------------------------------------

/// A duration as days, hours, minutes and seconds, leaving out the leading
/// zero units (`1d 1h 0m 0s`, `1h 1m 5s`, `1m 30s`, `30s`).
pub open spec fn duration_text(seconds: u64) -> Seq<char> {
    let days = seconds / 86400;
    let hours = (seconds % 86400) / 3600;
    let minutes = (seconds % 3600) / 60;
    let secs = seconds % 60;
    if days > 0 {
        decimal(days as nat) + "d "@ + decimal(hours as nat) + "h "@ + decimal(minutes as nat) + "m "@
            + decimal(secs as nat) + "s"@
    } else if hours > 0 {
        decimal(hours as nat) + "h "@ + decimal(minutes as nat) + "m "@ + decimal(secs as nat) + "s"@
    } else if minutes > 0 {
        decimal(minutes as nat) + "m "@ + decimal(secs as nat) + "s"@
    } else {
        decimal(secs as nat) + "s"@
    }
}

/// Format a duration given in seconds.
pub fn format_duration(seconds: u64) -> (r: String)
    ensures
        r@ == duration_text(seconds),
{
    let days = seconds / 86400;
    let hours = (seconds % 86400) / 3600;
    let minutes = (seconds % 3600) / 60;
    let secs = seconds % 60;
    let mut out = String::new();
    if days > 0 {
        push3(&mut out, u64_to_string(days).as_str(), "d ", u64_to_string(hours).as_str());
        push3(&mut out, "h ", u64_to_string(minutes).as_str(), "m ");
        push3(&mut out, u64_to_string(secs).as_str(), "s", "");
    } else if hours > 0 {
        push3(&mut out, u64_to_string(hours).as_str(), "h ", u64_to_string(minutes).as_str());
        push3(&mut out, "m ", u64_to_string(secs).as_str(), "s");
    } else if minutes > 0 {
        push3(&mut out, u64_to_string(minutes).as_str(), "m ", u64_to_string(secs).as_str());
        push1(&mut out, "s");
    } else {
        push3(&mut out, u64_to_string(secs).as_str(), "s", "");
    }
    proof {
        reveal_strlit("");
    }
    assert(out@ =~= duration_text(seconds));
    out
}

/// The number of filled cells of a bar of `width` cells for `value` out of `max`.
pub open spec fn bar_filled(value: usize, max: usize, width: usize) -> int {
    if max > 0 {
        (value * width) / (max as int)
    } else {
        0
    }
}

/// A bar of `width` cells, `[` and `]` around it, the first
/// `value * width / max` cells full and the rest empty.
pub open spec fn bar_text(value: usize, max: usize, width: usize) -> Seq<char> {
    seq!['['] + Seq::new(width as nat, |i: int| if i < bar_filled(value, max, width) { '█' } else { '░' })
        + seq![']']
}

/// Format a bar for `value` out of `max` in `width` cells.
pub fn format_bar(value: usize, max: usize, width: usize) -> (r: String)
    requires
        value * width <= usize::MAX,
    ensures
        r@ == bar_text(value, max, width),
{
    let filled = if max > 0 {
        (value * width) / max
    } else {
        0
    };
    let mut bar: Vec<char> = Vec::new();
    bar.push('[');
    let mut i: usize = 0;
    while i < width
        invariant
            i <= width,
            filled as int == bar_filled(value, max, width),
            bar@ == seq!['['] + Seq::new(i as nat, |k: int| if k < bar_filled(value, max, width) { '█' } else { '░' }),
        decreases width - i,
    {
        if i < filled {
            bar.push('█');
        } else {
            bar.push('░');
        }
        i = i + 1;
        assert(bar@ =~= seq!['['] + Seq::new(i as nat, |k: int| if k < bar_filled(value, max, width) { '█' } else { '░' }));
    }
    bar.push(']');
    assert(bar@ =~= bar_text(value, max, width));
    string_from_chars(&bar)
}

/// Pad `s` with spaces, or cut it, to `width` bytes of UTF-8; a cut must
/// fall on a character boundary.
pub fn pad_right(s: &str, width: usize) -> (r: String)
    requires
        utf8_len(s@) < width || is_byte_boundary(s@, width as nat),
    ensures
        r@ == pad_right_spec(s@, width as nat),
{
    let chars = chars_of(s);
    let (k, bytes) = prefix_within_bytes(&chars, width);
    if k < chars.len() || bytes == width {
        proof {
            if k < chars.len() {
                lemma_utf8_len_grows(s@, k + 1, s@.len() as int);
                assert(s@.take(k + 1).drop_last() =~= s@.take(k as int));
                assert(s@.take(s@.len() as int) =~= s@);
            } else {
                assert(s@.take(k as int) =~= s@);
                assert(utf8_len(s@.take(k as int)) == width);
            }
        }
        return cut_to_bytes(s, width);
    }
    assert(chars@.take(k as int) =~= chars@);
    let pad = spaces_exec(width - bytes);
    let mut v: Vec<char> = Vec::new();
    let mut i: usize = 0;
    while i < chars.len()
        invariant
            i <= chars@.len(),
            v@ == chars@.subrange(0, i as int),
        decreases chars.len() - i,
    {
        v.push(chars[i]);
        i = i + 1;
        assert(v@ =~= chars@.subrange(0, i as int));
    }
    let mut j: usize = 0;
    let ghost base = v@;
    while j < pad.len()
        invariant
            j <= pad@.len(),
            v@ == base + pad@.subrange(0, j as int),
        decreases pad.len() - j,
    {
        v.push(pad[j]);
        j = j + 1;
        assert(v@ =~= base + pad@.subrange(0, j as int));
    }
    assert(base =~= chars@);
    assert(pad@.subrange(0, pad@.len() as int) =~= pad@);
    string_from_chars(&v)
}

// ---------------------------------------------------------------------
// Time stamps (chrono)
// ---------------------------------------------------------------------

/// The UTC date and time of second `secs` since the Unix epoch as
/// `YYYY-MM-DD HH:MM:SS UTC`, or `None` outside chrono's range.
pub uninterp spec fn utc_text(secs: i64) -> Option<Seq<char>>;

/// The last second chrono's dates reach: the end of 31 December of the
/// year 262142, its last year.
pub const LAST_DATED_SECOND: u64 = 8_210_266_876_799;

/// `chrono::DateTime::from_timestamp(secs, 0)` formatted with
/// `%Y-%m-%d %H:%M:%S UTC`. Claimed: the result is a function of `secs`,
/// and present for the seconds from 0 to `LAST_DATED_SECOND` (its day
/// number stays within `i32` and its year within chrono's years).
#[verifier::external_body]
fn utc_timestamp_text(secs: i64) -> (r: Option<String>)
    ensures
        match r {
            Some(s) => utc_text(secs) == Some(s@),
            None => utc_text(secs) is None,
        },
        0 <= secs <= LAST_DATED_SECOND ==> r is Some,
{
    DateTime::from_timestamp(secs, 0).map(|d| d.format("%Y-%m-%d %H:%M:%S UTC").to_string())
}

/// The text of a time stamp, for the time stamps chrono can show.
pub open spec fn timestamp_text(timestamp: u64) -> Seq<char> {
    match utc_text(timestamp as i64) {
        Some(s) => s,
        None => Seq::empty(),
    }
}

/// Format a time stamp (seconds since the Unix epoch) as a UTC date and time.
pub fn format_timestamp(timestamp: u64) -> (r: String)
    requires
        timestamp <= LAST_DATED_SECOND,
    ensures
        r@ == timestamp_text(timestamp),
{
    match utc_timestamp_text(timestamp as i64) {
        Some(s) => s,
        None => String::new(),
    }
}


// ---------------------------------------------------------------------
// The dashboard text
// ---------------------------------------------------------------------

/// The name of a replication role, as `Debug` prints it.
pub open spec fn role_name(r: NodeRole) -> Seq<char> {
    match r {
        NodeRole::Master => "Master"@,
        NodeRole::Slave => "Slave"@,
    }
}

fn role_text(r: NodeRole) -> (s: &'static str)
    ensures
        s@ == role_name(r),
{
    match r {
        NodeRole::Master => "Master",
        NodeRole::Slave => "Slave",
    }
}

/// The name of a backup type, as `Debug` prints it.
pub open spec fn backup_type_name(t: BackupType) -> Seq<char> {
    match t {
        BackupType::Full => "Full"@,
        BackupType::Incremental => "Incremental"@,
    }
}

fn backup_type_text(t: BackupType) -> (s: &'static str)
    ensures
        s@ == backup_type_name(t),
{
    match t {
        BackupType::Full => "Full",
        BackupType::Incremental => "Incremental",
    }
}

fn bool_string(b: bool) -> (s: &'static str)
    ensures
        s@ == bool_text(b),
{
    if b {
        "true"
    } else {
        "false"
    }
}

/// `o` followed by the dashboard banner.
pub open spec fn header_after(o: Seq<char>) -> Seq<char> {
    o
        + "╔══════════════════════════════════════════════════════════════╗\n"@
        + "║             DEED DATABASE ADMIN DASHBOARD                    ║\n"@
        + "╚══════════════════════════════════════════════════════════════╝\n\n"@
}

/// `o` followed by the uptime line, with the date and time at second `now`.
pub open spec fn uptime_after(o: Seq<char>, uptime: u64, now: u64) -> Seq<char> {
    o
        + "⏱  Uptime: "@
        + duration_text(uptime)
        + " ("@
        + timestamp_text(now)
        + ")\n\n"@
}

/// `o` followed by the database section.
pub open spec fn database_after(o: Seq<char>, db: DatabaseStats) -> Seq<char> {
    o
        + "┌─ DATABASE ──────────────────────────────────────────────────┐\n"@
        + "│ Entities:    "@
        + pad_left(decimal(db.entity_count as nat), 10)
        + "                                      │\n"@
        + "│ Edges:       "@
        + pad_left(decimal(db.edge_count as nat), 10)
        + "                                      │\n"@
        + "│ Properties:  "@
        + pad_left(decimal(db.total_properties as nat), 10)
        + "                                      │\n"@
        + "│ Collections: "@
        + pad_left(decimal(db.collections@.len()), 10)
        + "                                      │\n"@
        + "└─────────────────────────────────────────────────────────────┘\n\n"@
}

/// `o` followed by the connection pool section; `utilization` is the rendered utilization percentage.
pub open spec fn pool_after(o: Seq<char>, pool: PoolStats, utilization: Seq<char>) -> Seq<char> {
    o
        + "┌─ CONNECTION POOL ───────────────────────────────────────────┐\n"@
        + "│ Total:   "@
        + pad_left(decimal((pool.active_connections + pool.idle_connections) as nat), 3)
        + " / "@
        + pad_left(decimal(pool.max_size as nat), 3)
        + " (min: "@
        + pad_left(decimal(pool.min_size as nat), 2)
        + ", max: "@
        + pad_left(decimal(pool.max_size as nat), 2)
        + ")                     │\n"@
        + "│ Active:  "@
        + pad_left(decimal(pool.active_connections as nat), 3)
        + "  "@
        + bar_text(pool.active_connections, pool.max_size, 20)
        + "                                │\n"@
        + "│ Idle:    "@
        + pad_left(decimal(pool.idle_connections as nat), 3)
        + "  "@
        + bar_text(pool.idle_connections, pool.max_size, 20)
        + "                                │\n"@
        + "│ Utilization: "@
        + utilization
        + "%                                         │\n"@
        + "└─────────────────────────────────────────────────────────────┘\n\n"@
}

/// `o` followed by the replication section; a master also shows its slave
/// count, and with slaves the largest lag.
pub open spec fn replication_after(o: Seq<char>, repl: ReplicationStats) -> Seq<char> {
    let x = o
        + "┌─ REPLICATION ───────────────────────────────────────────────┐\n"@
        + "│ Node:     "@
        + pad_right_spec(repl.node_id@, 20)
        + "                                          │\n"@
        + "│ Role:     "@
        + role_name(repl.role)
        + "                                              │\n"@
        + "│ Sequence: "@
        + pad_left(decimal(repl.current_seq as nat), 10)
        + "                                      │\n"@
        + "│ Log Size: "@
        + pad_left(decimal(repl.log_size as nat), 10)
        + "                                      │\n"@;
    let y = if repl.role == NodeRole::Master {
        let z = x
        + "│ Slaves:   "@
        + pad_left(decimal(repl.slave_count as nat), 10)
        + "                                      │\n"@;
        if repl.slave_count > 0 {
            z
        + "│ Max Lag:  "@
        + pad_left(decimal(repl.max_slave_lag_ms as nat), 10)
        + " ms                                  │\n"@
        } else {
            z
        }
    } else {
        x
    };
    y
        + "└─────────────────────────────────────────────────────────────┘\n\n"@
}

/// `o` followed by the authentication section.
pub open spec fn auth_after(o: Seq<char>, auth: AuthStats) -> Seq<char> {
    o
        + "┌─ AUTHENTICATION ────────────────────────────────────────────┐\n"@
        + "│ Total Users:     "@
        + pad_left(decimal(auth.total_users as nat), 5)
        + "                                     │\n"@
        + "│ Active Sessions: "@
        + pad_left(decimal(auth.active_sessions as nat), 5)
        + "                                     │\n"@
        + "│                                                             │\n"@
        + "│ Users by Role:                                              │\n"@
        + "│   Admin:     "@
        + pad_left(decimal(auth.users_by_role.admin_count as nat), 5)
        + "                                         │\n"@
        + "│   ReadWrite: "@
        + pad_left(decimal(auth.users_by_role.readwrite_count as nat), 5)
        + "                                         │\n"@
        + "│   ReadOnly:  "@
        + pad_left(decimal(auth.users_by_role.readonly_count as nat), 5)
        + "                                         │\n"@
        + "└─────────────────────────────────────────────────────────────┘\n\n"@
}

/// `o` followed by the transactions section.
pub open spec fn transactions_after(o: Seq<char>, t: TransactionStats) -> Seq<char> {
    o
        + "┌─ TRANSACTIONS ──────────────────────────────────────────────┐\n"@
        + "│ Active:      "@
        + pad_left(decimal(t.active_transactions as nat), 10)
        + "                                      │\n"@
        + "│ Committed:   "@
        + pad_left(decimal(t.committed_transactions as nat), 10)
        + "                                      │\n"@
        + "│ Rolled Back: "@
        + pad_left(decimal(t.rollbacked_transactions as nat), 10)
        + "                                      │\n"@
        + "└─────────────────────────────────────────────────────────────┘\n\n"@
}

/// The whole dashboard for `stats` at second `now`; `utilization` is the
/// pool's utilization percentage as rendered (`{:>5.1}`).
pub open spec fn dashboard_text(stats: DashboardStats, now: u64, utilization: Seq<char>) -> Seq<char> {
    let a = database_after(uptime_after(header_after(Seq::empty()), stats.uptime_seconds, now), stats.database);
    let b = match stats.pool {
        Some(p) => pool_after(a, p, utilization),
        None => a,
    };
    let c = match stats.replication {
        Some(r) => replication_after(b, r),
        None => b,
    };
    transactions_after(auth_after(c, stats.auth), stats.transactions)
}

/// `o` followed by the backups banner.
pub open spec fn backups_head_after(o: Seq<char>) -> Seq<char> {
    o
        + "╔══════════════════════════════════════════════════════════════╗\n"@
        + "║                         BACKUPS                              ║\n"@
        + "╚══════════════════════════════════════════════════════════════╝\n\n"@
}

/// `o` followed by the listing of backup number `n`.
pub open spec fn backup_entry_after(o: Seq<char>, n: usize, b: BackupMetadata) -> Seq<char> {
    o
        + decimal(n as nat)
        + ". "@
        + b.backup_id@
        + "\n"@
        + "   Type:      "@
        + backup_type_name(b.backup_type)
        + "\n"@
        + "   Time:      "@
        + timestamp_text(b.timestamp)
        + "\n"@
        + "   Entities:  "@
        + decimal(b.entity_count as nat)
        + "\n"@
        + "   Edges:     "@
        + decimal(b.edge_count as nat)
        + "\n"@
        + "   Compressed: "@
        + bool_text(b.compressed)
        + "\n"@
        + "   Checksum:  "@
        + cut_bytes(b.checksum@, 16)
        + "\n\n"@
}

/// `o` followed by the listings of the first `n` backups, numbered from 1.
pub open spec fn backup_entries_after(o: Seq<char>, bs: Seq<BackupMetadata>, n: nat) -> Seq<char>
    decreases n,
{
    if n == 0 || n > bs.len() {
        o
    } else {
        backup_entry_after(backup_entries_after(o, bs, (n - 1) as nat), n as usize, bs[n - 1])
    }
}

/// The backup list: the banner, then each backup, or a note that there is none.
pub open spec fn backups_text(bs: Seq<BackupMetadata>) -> Seq<char> {
    let h = backups_head_after(Seq::empty());
    if bs.len() == 0 {
        h
        + "No backups found.\n"@
    } else {
        backup_entries_after(h, bs, bs.len())
    }
}

/// What the dashboard needs of a backup: a time stamp chrono can show and
/// a checksum whose byte 16 starts a character or ends it.
pub open spec fn backup_printable(b: BackupMetadata) -> bool {
    &&& b.timestamp <= LAST_DATED_SECOND
    &&& is_byte_boundary(b.checksum@, 16)
}

fn push_header(out: &mut String)
    ensures
        final(out)@ == header_after(old(out)@),
{
    push1(out, "╔══════════════════════════════════════════════════════════════╗\n");
    push1(out, "║             DEED DATABASE ADMIN DASHBOARD                    ║\n");
    push1(out, "╚══════════════════════════════════════════════════════════════╝\n\n");
}

fn push_uptime(out: &mut String, uptime: u64, now: u64)
    requires
        now <= LAST_DATED_SECOND,
    ensures
        final(out)@ == uptime_after(old(out)@, uptime, now),
{
    push1(out, "⏱  Uptime: ");
    push1(out, format_duration(uptime).as_str());
    push1(out, " (");
    push1(out, format_timestamp(now).as_str());
    push1(out, ")\n\n");
}

fn push_database(out: &mut String, db: &DatabaseStats)
    ensures
        final(out)@ == database_after(old(out)@, *db),
{
    push1(out, "┌─ DATABASE ──────────────────────────────────────────────────┐\n");
    push1(out, "│ Entities:    ");
    push1(out, pad_usize(db.entity_count, 10).as_str());
    push1(out, "                                      │\n");
    push1(out, "│ Edges:       ");
    push1(out, pad_usize(db.edge_count, 10).as_str());
    push1(out, "                                      │\n");
    push1(out, "│ Properties:  ");
    push1(out, pad_usize(db.total_properties, 10).as_str());
    push1(out, "                                      │\n");
    push1(out, "│ Collections: ");
    push1(out, pad_usize(db.collections.len(), 10).as_str());
    push1(out, "                                      │\n");
    push1(out, "└─────────────────────────────────────────────────────────────┘\n\n");
}

fn push_pool(out: &mut String, pool: &PoolStats, utilization: &str)
    requires
        pool.active_connections + pool.idle_connections <= usize::MAX,
        pool.active_connections * 20 <= usize::MAX,
        pool.idle_connections * 20 <= usize::MAX,
    ensures
        final(out)@ == pool_after(old(out)@, *pool, utilization@),
{
    push1(out, "┌─ CONNECTION POOL ───────────────────────────────────────────┐\n");
    push1(out, "│ Total:   ");
    push1(out, pad_usize(pool.active_connections + pool.idle_connections, 3).as_str());
    push1(out, " / ");
    push1(out, pad_usize(pool.max_size, 3).as_str());
    push1(out, " (min: ");
    push1(out, pad_usize(pool.min_size, 2).as_str());
    push1(out, ", max: ");
    push1(out, pad_usize(pool.max_size, 2).as_str());
    push1(out, ")                     │\n");
    push1(out, "│ Active:  ");
    push1(out, pad_usize(pool.active_connections, 3).as_str());
    push1(out, "  ");
    push1(out, format_bar(pool.active_connections, pool.max_size, 20).as_str());
    push1(out, "                                │\n");
    push1(out, "│ Idle:    ");
    push1(out, pad_usize(pool.idle_connections, 3).as_str());
    push1(out, "  ");
    push1(out, format_bar(pool.idle_connections, pool.max_size, 20).as_str());
    push1(out, "                                │\n");
    push1(out, "│ Utilization: ");
    push1(out, utilization);
    push1(out, "%                                         │\n");
    push1(out, "└─────────────────────────────────────────────────────────────┘\n\n");
}

fn push_replication(out: &mut String, repl: &ReplicationStats)
    requires
        utf8_len(repl.node_id@) < 20 || is_byte_boundary(repl.node_id@, 20),
    ensures
        final(out)@ == replication_after(old(out)@, *repl),
{
    push1(out, "┌─ REPLICATION ───────────────────────────────────────────────┐\n");
    push1(out, "│ Node:     ");
    push1(out, pad_right(repl.node_id.as_str(), 20).as_str());
    push1(out, "                                          │\n");
    push1(out, "│ Role:     ");
    push1(out, role_text(repl.role));
    push1(out, "                                              │\n");
    push1(out, "│ Sequence: ");
    push1(out, pad_u64(repl.current_seq, 10).as_str());
    push1(out, "                                      │\n");
    push1(out, "│ Log Size: ");
    push1(out, pad_usize(repl.log_size, 10).as_str());
    push1(out, "                                      │\n");
    if repl.role == NodeRole::Master {
        push1(out, "│ Slaves:   ");
        push1(out, pad_usize(repl.slave_count, 10).as_str());
        push1(out, "                                      │\n");
        if repl.slave_count > 0 {
            push1(out, "│ Max Lag:  ");
            push1(out, pad_u64(repl.max_slave_lag_ms, 10).as_str());
            push1(out, " ms                                  │\n");
        }
    }
    push1(out, "└─────────────────────────────────────────────────────────────┘\n\n");
}

fn push_auth(out: &mut String, auth: &AuthStats)
    ensures
        final(out)@ == auth_after(old(out)@, *auth),
{
    push1(out, "┌─ AUTHENTICATION ────────────────────────────────────────────┐\n");
    push1(out, "│ Total Users:     ");
    push1(out, pad_usize(auth.total_users, 5).as_str());
    push1(out, "                                     │\n");
    push1(out, "│ Active Sessions: ");
    push1(out, pad_usize(auth.active_sessions, 5).as_str());
    push1(out, "                                     │\n");
    push1(out, "│                                                             │\n");
    push1(out, "│ Users by Role:                                              │\n");
    push1(out, "│   Admin:     ");
    push1(out, pad_usize(auth.users_by_role.admin_count, 5).as_str());
    push1(out, "                                         │\n");
    push1(out, "│   ReadWrite: ");
    push1(out, pad_usize(auth.users_by_role.readwrite_count, 5).as_str());
    push1(out, "                                         │\n");
    push1(out, "│   ReadOnly:  ");
    push1(out, pad_usize(auth.users_by_role.readonly_count, 5).as_str());
    push1(out, "                                         │\n");
    push1(out, "└─────────────────────────────────────────────────────────────┘\n\n");
}

fn push_transactions(out: &mut String, t: &TransactionStats)
    ensures
        final(out)@ == transactions_after(old(out)@, *t),
{
    push1(out, "┌─ TRANSACTIONS ──────────────────────────────────────────────┐\n");
    push1(out, "│ Active:      ");
    push1(out, pad_usize(t.active_transactions, 10).as_str());
    push1(out, "                                      │\n");
    push1(out, "│ Committed:   ");
    push1(out, pad_usize(t.committed_transactions, 10).as_str());
    push1(out, "                                      │\n");
    push1(out, "│ Rolled Back: ");
    push1(out, pad_usize(t.rollbacked_transactions, 10).as_str());
    push1(out, "                                      │\n");
    push1(out, "└─────────────────────────────────────────────────────────────┘\n\n");
}

fn push_backups_head(out: &mut String)
    ensures
        final(out)@ == backups_head_after(old(out)@),
{
    push1(out, "╔══════════════════════════════════════════════════════════════╗\n");
    push1(out, "║                         BACKUPS                              ║\n");
    push1(out, "╚══════════════════════════════════════════════════════════════╝\n\n");
}

fn push_backup_entry(out: &mut String, n: usize, b: &BackupMetadata)
    requires
        backup_printable(*b),
    ensures
        final(out)@ == backup_entry_after(old(out)@, n, *b),
{
    push1(out, usize_to_string(n).as_str());
    push1(out, ". ");
    push1(out, b.backup_id.as_str());
    push1(out, "\n");
    push1(out, "   Type:      ");
    push1(out, backup_type_text(b.backup_type));
    push1(out, "\n");
    push1(out, "   Time:      ");
    push1(out, format_timestamp(b.timestamp).as_str());
    push1(out, "\n");
    push1(out, "   Entities:  ");
    push1(out, usize_to_string(b.entity_count).as_str());
    push1(out, "\n");
    push1(out, "   Edges:     ");
    push1(out, usize_to_string(b.edge_count).as_str());
    push1(out, "\n");
    push1(out, "   Compressed: ");
    push1(out, bool_string(b.compressed));
    push1(out, "\n");
    push1(out, "   Checksum:  ");
    push1(out, cut_to_bytes(b.checksum.as_str(), 16).as_str());
    push1(out, "\n\n");
}

/// What the dashboard needs of the statistics: pool counts whose sums and
/// bars fit in a `usize`, and a replication node id whose byte 20, where
/// it is that long, starts a character.
pub open spec fn stats_printable(stats: DashboardStats) -> bool {
    &&& stats.pool matches Some(p) ==> {
        &&& p.active_connections + p.idle_connections <= usize::MAX
        &&& p.active_connections * 20 <= usize::MAX
        &&& p.idle_connections * 20 <= usize::MAX
    }
    &&& stats.replication matches Some(r) ==> utf8_len(r.node_id@) < 20 || is_byte_boundary(r.node_id@, 20)
}

/// The number of users with role `r`.
pub open spec fn role_count(users: Seq<UserView>, r: Role) -> nat
    decreases users.len(),
{
    if users.len() == 0 {
        0
    } else {
        role_count(users.drop_last(), r) + if users.last().role == r { 1nat } else { 0nat }
    }
}

proof fn lemma_role_count_le(users: Seq<UserView>, r: Role)
    ensures
        role_count(users, r) <= users.len(),
    decreases users.len(),
{
    if users.len() > 0 {
        lemma_role_count_le(users.drop_last(), r);
    }
}

/// The number of properties of the entities, all together.
pub open spec fn property_total(es: Seq<EntityView>) -> nat
    decreases es.len(),
{
    if es.len() == 0 {
        0
    } else {
        property_total(es.drop_last()) + es.last().properties.len()
    }
}

/// The types of the entities.
pub open spec fn types_of(es: Seq<EntityView>) -> Set<Seq<char>> {
    Set::new(|t: Seq<char>| exists|i: int| 0 <= i < es.len() && (#[trigger] es[i]).entity_type == t)
}

/// A count capped at the largest `usize`.
pub open spec fn capped(n: nat) -> usize {
    if n <= usize::MAX {
        n as usize
    } else {
        usize::MAX
    }
}

/// The texts of a list of strings.
pub open spec fn texts(v: Seq<String>) -> Seq<Seq<char>> {
    v.map_values(|s: String| s@)
}

/// Database statistics of a list of entities and the number of edges.
fn database_stats_of(entities: &Vec<Entity>, edge_count: usize) -> (r: DatabaseStats)
    ensures
        r.entity_count == entities@.len(),
        r.edge_count == edge_count,
        r.total_properties == capped(property_total(entities@.map_values(|e: Entity| e@))),
        texts(r.collections@).no_duplicates(),
        texts(r.collections@).to_set() == types_of(entities@.map_values(|e: Entity| e@)),
{
    let ghost ev = entities@.map_values(|e: Entity| e@);
    let mut total: usize = 0;
    let mut collections: Vec<String> = Vec::new();
    let mut i: usize = 0;
    while i < entities.len()
        invariant
            i <= entities@.len(),
            ev == entities@.map_values(|e: Entity| e@),
            total == capped(property_total(ev.subrange(0, i as int))),
            texts(collections@).no_duplicates(),
            texts(collections@).to_set() == types_of(ev.subrange(0, i as int)),
        decreases entities.len() - i,
    {
        let ghost sub = ev.subrange(0, i + 1);
        proof {
            assert(sub.drop_last() =~= ev.subrange(0, i as int));
            assert(sub.last() == entities@[i as int]@);
        }
        let n = entities[i].properties.len();
        total = total.saturating_add(n);
        let name = &entities[i].entity_type;
        let mut found = false;
        let mut j: usize = 0;
        while j < collections.len()
            invariant
                j <= collections@.len(),
                found ==> texts(collections@).contains(name@),
                !found ==> forall|m: int| 0 <= m < j ==> texts(collections@)[m] != name@,
            decreases collections.len() - j,
        {
            if str_equal(collections[j].as_str(), name.as_str()) {
                found = true;
                assert(texts(collections@)[j as int] == name@);
            }
            j = j + 1;
        }
        let ghost before = texts(collections@);
        if !found {
            collections.push(name.clone());
            assert(texts(collections@) =~= before.push(name@));
        }
        proof {
            assert(texts(collections@).to_set() =~= types_of(sub)) by {
                assert forall|t: Seq<char>| texts(collections@).to_set().contains(t) implies types_of(sub).contains(t) by {
                    if t == name@ {
                        assert(sub[i as int].entity_type == t);
                    } else {
                        assert(before.to_set().contains(t));
                        let w = choose|k: int| 0 <= k < i && (#[trigger] ev.subrange(0, i as int)[k]).entity_type == t;
                        assert(sub[w] == ev.subrange(0, i as int)[w]);
                    }
                }
                assert forall|t: Seq<char>| types_of(sub).contains(t) implies texts(collections@).to_set().contains(t) by {
                    let w = choose|k: int| 0 <= k < sub.len() && (#[trigger] sub[k]).entity_type == t;
                    if w < i {
                        assert(ev.subrange(0, i as int)[w] == sub[w]);
                        assert(types_of(ev.subrange(0, i as int)).contains(t));
                        assert(before.to_set().contains(t));
                        let k = choose|k: int| 0 <= k < before.len() && before[k] == t;
                        assert(texts(collections@)[k] == t);
                    } else {
                        assert(t == name@);
                        if !found {
                            assert(texts(collections@)[texts(collections@).len() - 1] == name@);
                        }
                    }
                }
            }
        }
        i = i + 1;
    }
    assert(ev.subrange(0, entities.len() as int) =~= ev);
    DatabaseStats { entity_count: entities.len(), edge_count, total_properties: total, collections }
}

/// Admin dashboard.
pub struct AdminDashboard {
    start_time: u64,
}

impl AdminDashboard {
    /// The second the dashboard started.
    pub closed spec fn start_time_spec(&self) -> u64 {
        self.start_time
    }

    /// A dashboard started at second `start_time`.
    pub fn new_at(start_time: u64) -> (r: Self)
        ensures
            r.start_time_spec() == start_time,
    {
        AdminDashboard { start_time }
    }

    /// A dashboard started now.
    pub fn new() -> (r: Self) {
        Self::new_at(current_timestamp())
    }

    /// The second the dashboard started.
    pub fn start_time(&self) -> (r: u64)
        ensures
            r == self.start_time_spec(),
    {
        self.start_time
    }

    /// The uptime at second `now`.
    pub fn uptime_at(&self, now: u64) -> (r: u64)
        requires
            now >= self.start_time_spec(),
        ensures
            r == now - self.start_time_spec(),
    {
        now - self.start_time
    }

    /// The dashboard for `stats` at second `now`; `utilization` is the
    /// pool's utilization percentage as rendered (`{:>5.1}`).
    pub fn format_dashboard_at(&self, stats: &DashboardStats, now: u64, utilization: &str) -> (r: String)
        requires
            now <= LAST_DATED_SECOND,
            stats_printable(*stats),
        ensures
            r@ == dashboard_text(*stats, now, utilization@),
    {
        let mut out = String::new();
        push_header(&mut out);
        push_uptime(&mut out, stats.uptime_seconds, now);
        push_database(&mut out, &stats.database);
        match &stats.pool {
            Some(p) => push_pool(&mut out, p, utilization),
            None => {},
        }
        match &stats.replication {
            Some(repl) => push_replication(&mut out, repl),
            None => {},
        }
        push_auth(&mut out, &stats.auth);
        push_transactions(&mut out, &stats.transactions);
        out
    }

    /// The dashboard for `stats`, dated now (a clock past chrono's last
    /// date is shown as its last second).
    pub fn format_dashboard(&self, stats: &DashboardStats, utilization: &str) -> (r: String)
        requires
            stats_printable(*stats),
        ensures
            exists|now: u64| now <= LAST_DATED_SECOND && r@ == #[trigger] dashboard_text(*stats, now, utilization@),
    {
        let clock = current_timestamp();
        let now = if clock <= LAST_DATED_SECOND { clock } else { LAST_DATED_SECOND };
        self.format_dashboard_at(stats, now, utilization)
    }

    /// The backup list.
    pub fn format_backups(&self, backups: &[BackupMetadata]) -> (r: String)
        requires
            forall|i: int| 0 <= i < backups@.len() ==> backup_printable(#[trigger] backups@[i]),
        ensures
            r@ == backups_text(backups@),
    {
        let mut out = String::new();
        push_backups_head(&mut out);
        if backups.len() == 0 {
            push1(&mut out, "No backups found.\n");
            return out;
        }
        let ghost head = out@;
        let mut i: usize = 0;
        while i < backups.len()
            invariant
                i <= backups@.len(),
                head == backups_head_after(Seq::empty()),
                forall|k: int| 0 <= k < backups@.len() ==> backup_printable(#[trigger] backups@[k]),
                out@ == backup_entries_after(head, backups@, i as nat),
            decreases backups.len() - i,
        {
            push_backup_entry(&mut out, i + 1, &backups[i]);
            i = i + 1;
        }
        out
    }

    /// Authentication statistics at second `now`: users, open sessions and
    /// users by role.
    pub fn get_auth_stats_at(&self, auth: &AuthManager, now: u64) -> (r: AuthStats)
        ensures
            r.total_users == auth.users_spec().len(),
            r.active_sessions == active_sessions(auth.sessions_spec(), now).len(),
            r.users_by_role.admin_count == role_count(auth.users_spec(), Role::Admin),
            r.users_by_role.readwrite_count == role_count(auth.users_spec(), Role::ReadWrite),
            r.users_by_role.readonly_count == role_count(auth.users_spec(), Role::ReadOnly),
    {
        let users = auth.list_users();
        let sessions = auth.list_active_sessions_at(now);
        let ghost us = user_views(users@);
        let mut admin_count: usize = 0;
        let mut readwrite_count: usize = 0;
        let mut readonly_count: usize = 0;
        let mut i: usize = 0;
        while i < users.len()
            invariant
                us == user_views(users@),
                i <= users@.len(),
                admin_count == role_count(us.subrange(0, i as int), Role::Admin),
                readwrite_count == role_count(us.subrange(0, i as int), Role::ReadWrite),
                readonly_count == role_count(us.subrange(0, i as int), Role::ReadOnly),
            decreases users.len() - i,
        {
            let ghost sub = us.subrange(0, i + 1);
            proof {
                assert(sub.drop_last() =~= us.subrange(0, i as int));
                lemma_role_count_le(sub.drop_last(), Role::Admin);
                lemma_role_count_le(sub.drop_last(), Role::ReadWrite);
                lemma_role_count_le(sub.drop_last(), Role::ReadOnly);
            }
            match users[i].role {
                Role::Admin => admin_count = admin_count + 1,
                Role::ReadWrite => readwrite_count = readwrite_count + 1,
                Role::ReadOnly => readonly_count = readonly_count + 1,
            }
            i = i + 1;
        }
        assert(us.subrange(0, users@.len() as int) =~= us);
        AuthStats {
            total_users: users.len(),
            active_sessions: sessions.len(),
            users_by_role: RoleBreakdown { admin_count, readwrite_count, readonly_count },
        }
    }

    /// Database statistics: entities, edges, properties of all entities
    /// (capped at the largest `usize`), and the types of the entities,
    /// each once.
    pub fn get_database_stats(&self, graph: &Graph) -> (r: DatabaseStats)
        ensures
            r.entity_count == graph.entities_spec().len(),
            r.edge_count == graph.edges_spec().len(),
            exists|s: Seq<EntityView>|
                #![trigger lists_values(graph.entities_spec(), s)]
                lists_values(graph.entities_spec(), s) && r.total_properties == capped(property_total(s))
                    && texts(r.collections@).to_set() == types_of(s),
            texts(r.collections@).no_duplicates(),
    {
        let entities = graph.get_all_entities();
        let edges = graph.get_all_edges();
        let ghost ev = entities@.map_values(|e: Entity| e@);
        proof {
            let ks = choose|ks: Seq<u64>|
                #![trigger ks.to_set()]
                ks.len() == ev.len() && ks.no_duplicates() && ks.to_set() == graph.entities_spec().dom() && forall|i: int|
                    0 <= i < ev.len() ==> ev[i] == graph.entities_spec()[#[trigger] ks[i]];
            ks.unique_seq_to_set();
            let gs = edges@.map_values(|e: crate::graph::Edge| e@);
            let ds = choose|ks: Seq<u64>|
                #![trigger ks.to_set()]
                ks.len() == gs.len() && ks.no_duplicates() && ks.to_set() == graph.edges_spec().dom() && forall|i: int|
                    0 <= i < gs.len() ==> gs[i] == graph.edges_spec()[#[trigger] ks[i]];
            ds.unique_seq_to_set();
        }
        database_stats_of(&entities, edges.len())
    }

    /// Dashboard statistics at second `now`, from the graph, the
    /// authentication manager, and the figures of the other parts.
    pub fn get_stats_at(
        &self,
        graph: &Graph,
        auth: &AuthManager,
        pool: Option<PoolStats>,
        replication: Option<ReplicationStats>,
        transactions: TransactionStats,
        now: u64,
    ) -> (r: DashboardStats)
        requires
            now >= self.start_time_spec(),
        ensures
            r.database.entity_count == graph.entities_spec().len(),
            r.database.edge_count == graph.edges_spec().len(),
            r.pool == pool,
            r.replication == replication,
            r.auth.total_users == auth.users_spec().len(),
            r.auth.active_sessions == active_sessions(auth.sessions_spec(), now).len(),
            r.transactions == transactions,
            r.uptime_seconds == now - self.start_time_spec(),
    {
        DashboardStats {
            database: self.get_database_stats(graph),
            pool,
            replication,
            auth: self.get_auth_stats_at(auth, now),
            transactions,
            uptime_seconds: self.uptime_at(now),
        }
    }

    /// Authentication statistics now.
    pub fn get_auth_stats(&self, auth: &AuthManager) -> (r: AuthStats)
        ensures
            r.total_users == auth.users_spec().len(),
            exists|now: u64| r.active_sessions == #[trigger] active_sessions(auth.sessions_spec(), now).len(),
            r.users_by_role.admin_count == role_count(auth.users_spec(), Role::Admin),
            r.users_by_role.readwrite_count == role_count(auth.users_spec(), Role::ReadWrite),
            r.users_by_role.readonly_count == role_count(auth.users_spec(), Role::ReadOnly),
    {
        self.get_auth_stats_at(auth, current_timestamp())
    }
}

} // verus!
