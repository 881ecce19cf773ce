//! The run history: where it is kept, how its index file is framed, and the
//! queries over it (last run, last `n` runs, run by id, next id).
//!
//! The history lives under `<home>/.recap`: `index.jsonl` holds one JSON
//! record per run, one per line, and `logs/NNNN.log` the output of run `NNNN`.
//! Reading and writing those files is left to the caller; the functions here
//! decide every path, frame the index text and answer every query.

use vstd::prelude::*;
use vstd::string::StringExecFns;
use crate::text::{
    lemma_two_digits, parsed_unsigned, chars_of, is_blank, is_blank_text, is_digit, lemma_zero_padded_digits,
    lemma_zero_padded_injective, line_scan, lines, strip_cr, text_lines, views, zero_pad, zero_padded,
};

verus! {

/// A point in time: seconds since the Unix epoch and the nanoseconds past that
/// second (above 999_999_999 only within a leap second).
#[derive(Clone, Copy, Debug, PartialEq, Eq, Structural)]
pub struct Timestamp {
    pub secs: i64,
    pub nanos: u32,
}

/// The text that chrono's `DateTime::<Utc>::format(pattern)` renders for the
/// instant `secs` seconds and `nanos` nanoseconds after the Unix epoch, or
/// `None` when `DateTime::from_timestamp(secs, nanos)` has no such instant.
pub uninterp spec fn chrono_utc_text(secs: i64, nanos: u32, pattern: Seq<char>) -> Option<Seq<char>>;

/// How a run's time is shown: date and time of day, to the second, in UTC.
pub open spec fn display_pattern() -> Seq<char> {
    "%Y-%m-%d %H:%M:%S"@
}

/// The time of day, `HH:MM:SS` in UTC, of the instant `secs` seconds and
/// `nanos` nanoseconds after the Unix epoch: the hour, minute and second of
/// `secs` within its day (days start at multiples of 86 400 seconds), each in
/// two digits; a leap second (`nanos` of a second or more) shows as second 60.
pub open spec fn clock_text(secs: i64, nanos: u32) -> Seq<char> {
    let in_day = (secs as int) % 86400;
    zero_padded((in_day / 3600) as nat, 2) + ":"@ + zero_padded(((in_day / 60) % 60) as nat, 2)
        + ":"@ + zero_padded((in_day % 60 + nanos / 1_000_000_000) as nat, 2)
}

/// chrono's `DateTime::from_timestamp(secs, nanos)`, then `format(pattern)`
/// rendered to a `String`. The contract says that the text is the one chrono
/// renders for these arguments, and that it ends with a space and the time of
/// day (`%H:%M:%S` are written last, each as two digits of the hour, minute
/// and second that `from_timestamp` derives from `secs.rem_euclid(86_400)`,
/// the second plus one within a leap second). The date before it is chrono's
/// calendar arithmetic and is not stated.
/// The pattern is held to the one the library shows, whose items are all
/// valid (an invalid pattern makes the rendering panic).
#[verifier::external_body]
fn chrono_utc_format(secs: i64, nanos: u32, pattern: &str) -> (r: Option<String>)
    requires
        pattern@ == display_pattern(),
    ensures
        r is Some <==> chrono_utc_text(secs, nanos, pattern@) is Some,
        r matches Some(text) ==> chrono_utc_text(secs, nanos, pattern@) == Some(text@),
        r matches Some(text) ==> text@.len() >= 9 && text@.subrange(text@.len() - 9, text@.len() as int)
            == " "@ + clock_text(secs, nanos),
{
    match chrono::DateTime::from_timestamp(secs, nanos) {
        Some(t) => Some(t.format(pattern).to_string()),
        None => None,
    }
}

impl Timestamp {
    /// The time as shown in listings, `YYYY-MM-DD HH:MM:SS` in UTC, or `None`
    /// for a time outside chrono's range. The text ends with a space and the
    /// time of day of the instant.
    pub fn display(&self) -> (r: Option<String>)
        ensures
            r is Some <==> chrono_utc_text(self.secs, self.nanos, display_pattern()) is Some,
            r matches Some(text) ==> chrono_utc_text(self.secs, self.nanos, display_pattern())
                == Some(text@),
            r matches Some(text) ==> text@.len() >= 9 && text@.subrange(
                text@.len() - 9,
                text@.len() as int,
            ) == " "@ + clock_text(self.secs, self.nanos),
    {
        chrono_utc_format(self.secs, self.nanos, "%Y-%m-%d %H:%M:%S")
    }
}

/// One recorded run: its id, the command line, its exit code and when it ended.
#[derive(Debug, PartialEq, Eq)]
pub struct RunEntry {
    pub id: u64,
    pub cmd: String,
    pub exit: i32,
    pub at: Timestamp,
}

impl Clone for RunEntry {
    fn clone(&self) -> (r: Self)
        ensures
            r == *self,
    {
        RunEntry { id: self.id, cmd: self.cmd.clone(), exit: self.exit, at: self.at }
    }
}

/// The bytes of ASCII text, one per character.
pub open spec fn ascii(text: Seq<char>) -> Seq<u8> {
    text.map_values(|c: char| c as u8)
}

/// `name` appended to the directory `base`, both as the bytes of a path, as
/// `PathBuf::join` does for a relative name on Unix: a `/` goes between them
/// unless `base` is empty or already ends with one.
pub open spec fn join_path(base: Seq<u8>, name: Seq<u8>) -> Seq<u8> {
    if base.len() == 0 {
        name
    } else if base.last() == 47u8 {
        base + name
    } else {
        base + seq![47u8] + name
    }
}

/// The file name of the log of run `id`: the id zero-padded to four digits,
/// then `.log` (`format!("{:04}.log", id)`).
pub open spec fn log_file_name(id: u64) -> Seq<u8> {
    ascii(zero_padded(id as nat, 4) + ".log"@)
}

/// Where the history is kept.
pub struct Storage {
    base_dir: Vec<u8>,
}

impl View for Storage {
    type V = Seq<u8>;

    /// The bytes of the history directory's path.
    closed spec fn view(&self) -> Seq<u8> {
        self.base_dir@
    }
}

/// The user's home directory (`dirs::home_dir`), as the bytes of its path in
/// the platform's encoding (`OsString::into_encoded_bytes`: on Unix, the path's
/// own bytes, whether they are UTF-8 or not). Whether there is a home
/// directory, and which, depends on the environment, so nothing is stated of
/// the result.
#[verifier::external_body]
fn home_dir() -> (r: Option<Vec<u8>>) {
    match dirs::home_dir() {
        Some(p) => Some(p.into_os_string().into_encoded_bytes()),
        None => None,
    }
}

/// The bytes of the ASCII text `text`.
fn ascii_bytes(text: &str) -> (r: Vec<u8>)
    ensures
        r@ == ascii(text@),
{
    let cs = chars_of(text);
    let mut r: Vec<u8> = Vec::new();
    let mut i: usize = 0;
    while i < cs.len()
        invariant
            i <= cs.len(),
            cs@ == text@,
            r@ == ascii(cs@.take(i as int)),
        decreases cs.len() - i,
    {
        r.push(cs[i] as u8);
        i = i + 1;
        assert(r@ =~= ascii(cs@.take(i as int)));
    }
    assert(cs@.take(cs.len() as int) =~= cs@);
    r
}

fn join_path_exec(base: &[u8], name: &[u8]) -> (r: Vec<u8>)
    ensures
        r@ == join_path(base@, name@),
{
    let mut r: Vec<u8> = Vec::new();
    let mut i: usize = 0;
    while i < base.len()
        invariant
            i <= base.len(),
            r@ == base@.take(i as int),
        decreases base.len() - i,
    {
        r.push(base[i]);
        i = i + 1;
        assert(r@ =~= base@.take(i as int));
    }
    assert(base@.take(base.len() as int) =~= base@);
    if base.len() > 0 && base[base.len() - 1] != 47u8 {
        r.push(47u8);
    }
    let ghost prefix = r@;
    let mut j: usize = 0;
    while j < name.len()
        invariant
            j <= name.len(),
            r@ == prefix + name@.take(j as int),
        decreases name.len() - j,
    {
        r.push(name[j]);
        j = j + 1;
        assert(r@ =~= prefix + name@.take(j as int));
    }
    assert(name@.take(name.len() as int) =~= name@);
    r
}

impl Storage {
    /// The history kept in `.recap` under the directory whose path has the
    /// bytes `home`.
    pub fn in_home(home: &[u8]) -> (s: Storage)
        ensures
            s@ == join_path(home@, ascii(".recap"@)),
    {
        let name = ascii_bytes(".recap");
        Storage { base_dir: join_path_exec(home, name.as_slice()) }
    }

    /// The history kept in `.recap` under the user's home directory, or `None`
    /// when no home directory can be found.
    pub fn new() -> (r: Option<Storage>)
        ensures
            r matches Some(s) ==> exists|home: Seq<u8>| s@ == join_path(home, ascii(".recap"@)),
    {
        match home_dir() {
            Some(home) => Some(Storage::in_home(home.as_slice())),
            None => None,
        }
    }

    /// The index file: `index.jsonl` in the history's directory.
    pub fn index_path(&self) -> (r: Vec<u8>)
        ensures
            r@ == join_path(self@, ascii("index.jsonl"@)),
    {
        let name = ascii_bytes("index.jsonl");
        join_path_exec(self.base_dir.as_slice(), name.as_slice())
    }

    /// The directory of the logs: `logs` in the history's directory.
    pub fn logs_dir(&self) -> (r: Vec<u8>)
        ensures
            r@ == join_path(self@, ascii("logs"@)),
    {
        let name = ascii_bytes("logs");
        join_path_exec(self.base_dir.as_slice(), name.as_slice())
    }

    /// The log file of run `id`: `logs/NNNN.log`.
    pub fn log_path(&self, id: u64) -> (r: Vec<u8>)
        ensures
            r@ == join_path(join_path(self@, ascii("logs"@)), log_file_name(id)),
    {
        let dir = self.logs_dir();
        let mut name = zero_pad(id, 4);
        name.append(".log");
        let name_bytes = ascii_bytes(name.as_str());
        join_path_exec(dir.as_slice(), name_bytes.as_slice())
    }
}

/// The lines of `ls` that are not blank, in order.
pub open spec fn nonblank(ls: Seq<Seq<char>>) -> Seq<Seq<char>>
    decreases ls.len(),
{
    if ls.len() == 0 {
        Seq::empty()
    } else if is_blank_text(ls.last()) {
        nonblank(ls.drop_last())
    } else {
        nonblank(ls.drop_last()).push(ls.last())
    }
}

/// The records of an index file whose text is `content`: its lines, blank
/// ones skipped. Each record is the JSON text of one run.
pub open spec fn index_records(content: Seq<char>) -> Seq<Seq<char>> {
    nonblank(text_lines(content))
}

/// The id that the next run gets: one more than the last run's, or 1 when
/// none is recorded.
pub open spec fn next_id_after(entries: Seq<RunEntry>) -> u64 {
    if entries.len() == 0 {
        1
    } else {
        (entries.last().id + 1) as u64
    }
}

/// The last recorded run, if any.
pub open spec fn last_run(entries: Seq<RunEntry>) -> Option<RunEntry> {
    if entries.len() == 0 {
        None
    } else {
        Some(entries.last())
    }
}

/// Where the last `n` runs begin: `entries.len().saturating_sub(n)`.
pub open spec fn last_n_start(len: nat, n: nat) -> nat {
    if n >= len {
        0
    } else {
        (len - n) as nat
    }
}

/// The last `n` runs (all of them when fewer are recorded), oldest first.
pub open spec fn last_runs(entries: Seq<RunEntry>, n: nat) -> Seq<RunEntry> {
    entries.subrange(last_n_start(entries.len(), n) as int, entries.len() as int)
}

/// The first recorded run with id `id`, if any.
pub open spec fn run_with_id(entries: Seq<RunEntry>, id: u64) -> Option<RunEntry>
    decreases entries.len(),
{
    if entries.len() == 0 {
        None
    } else if entries[0].id == id {
        Some(entries[0])
    } else {
        run_with_id(entries.drop_first(), id)
    }
}

proof fn lemma_run_with_id_skip(entries: Seq<RunEntry>, id: u64, i: int)
    requires
        0 <= i <= entries.len(),
        forall|j: int| 0 <= j < i ==> #[trigger] entries[j].id != id,
    ensures
        run_with_id(entries, id) == run_with_id(entries.skip(i), id),
    decreases i,
{
    if i > 0 {
        assert(entries.drop_first().skip(i - 1) =~= entries.skip(i));
        assert forall|j: int| 0 <= j < i - 1 implies #[trigger] entries.drop_first()[j].id != id by {
            assert(entries.drop_first()[j] == entries[j + 1]);
        }
        assert(entries[0].id != id);
        lemma_run_with_id_skip(entries.drop_first(), id, i - 1);
    } else {
        assert(entries.skip(0) =~= entries);
    }
}

proof fn lemma_scan_line(content: Seq<char>, line: Seq<char>)
    requires
        line_scan(content).1.len() == 0,
        forall|i: int| 0 <= i < line.len() ==> line[i] != '\n',
    ensures
        line_scan(content + line) == (line_scan(content).0, line),
    decreases line.len(),
{
    if line.len() == 0 {
        assert(content + line =~= content);
        assert(line =~= line_scan(content).1);
    } else {
        lemma_scan_line(content, line.drop_last());
        assert((content + line).drop_last() =~= content + line.drop_last());
        assert(line.drop_last().push(line.last()) =~= line);
    }
}

/// Appending one record to the index, as a line of its own, adds exactly that
/// record to what the index reads back, after all the records that were
/// there: provided the index ended at a line boundary, and the record is a
/// single non-blank line (JSON text written compactly, as the index holds,
/// contains no raw line break).
pub proof fn lemma_index_append(content: Seq<char>, record: Seq<char>)
    requires
        content.len() == 0 || content.last() == '\n',
        forall|i: int| 0 <= i < record.len() ==> record[i] != '\n',
        record.len() > 0 ==> record.last() != '\r',
        !is_blank_text(record),
    ensures
        index_records(content + record + seq!['\n']) == index_records(content).push(record),
{
    if content.len() > 0 {
        assert(line_scan(content).1.len() == 0);
    }
    lemma_scan_line(content, record);
    let written = content + record + seq!['\n'];
    assert(written.drop_last() =~= content + record);
    assert(strip_cr(record) == record);
    let done = line_scan(content).0;
    assert(text_lines(written) == done.push(record));
    assert(text_lines(content) == done);
    assert(done.push(record).drop_last() =~= done);
}

/// The ids of `entries` increase strictly from first to last, as they do when
/// every run is recorded with the id that `next_id` gave.
pub open spec fn ids_increasing(entries: Seq<RunEntry>) -> bool {
    forall|i: int, j: int| 0 <= i < j < entries.len() ==> #[trigger] entries[i].id < #[trigger] entries[j].id
}

/// Recording a run under the id that `next_id` gives: that id is fresh (above
/// every recorded id), the ids keep increasing, and afterwards the run is what
/// `get_last` returns and what `get_by_id` returns for its id.
pub proof fn lemma_record_next_run(entries: Seq<RunEntry>, run: RunEntry)
    requires
        ids_increasing(entries),
        entries.len() > 0 ==> entries.last().id < u64::MAX,
        run.id == next_id_after(entries),
    ensures
        forall|i: int| 0 <= i < entries.len() ==> #[trigger] entries[i].id < run.id,
        ids_increasing(entries.push(run)),
        last_run(entries.push(run)) == Some(run),
        run_with_id(entries.push(run), run.id) == Some(run),
        run.id < u64::MAX ==> next_id_after(entries.push(run)) == run.id + 1,
{
    let s = entries.push(run);
    assert forall|i: int| 0 <= i < entries.len() implies #[trigger] entries[i].id < run.id by {
        if i < entries.len() - 1 {
            assert(entries[i].id < entries[entries.len() - 1].id);
        }
    }
    assert forall|i: int, j: int| 0 <= i < j < s.len() implies #[trigger] s[i].id < #[trigger] s[j].id by {
        assert(s[i] == entries[i]);
        if j < entries.len() {
            assert(s[j] == entries[j]);
        }
    }
    assert forall|j: int| 0 <= j < entries.len() implies #[trigger] s[j].id != run.id by {
        assert(s[j] == entries[j]);
    }
    lemma_run_with_id_skip(s, run.id, entries.len() as int);
    assert(s.skip(entries.len() as int) =~= seq![run]);
    assert(seq![run].drop_first() =~= Seq::<RunEntry>::empty());
}

/// The last `n` runs are exactly `min(n, len)` runs, the final ones of the
/// history, in the history's order; newest first, the `i`-th of them is the
/// `i`-th from the end.
pub proof fn lemma_last_runs_are_the_latest(entries: Seq<RunEntry>, n: nat)
    ensures
        last_runs(entries, n).len() == if n <= entries.len() { n } else { entries.len() },
        forall|i: int|
            0 <= i < last_runs(entries, n).len() ==> #[trigger] last_runs(entries, n)[i]
                == entries[entries.len() - last_runs(entries, n).len() + i],
        forall|i: int|
            0 <= i < last_runs(entries, n).len() ==> #[trigger] last_runs(entries, n).reverse()[i]
                == entries[entries.len() - 1 - i],
{
}

/// The time-of-day part of a shown time, read back: its hour, minute and
/// second fields are `secs / 3600 % 24`, `secs / 60 % 60` and `secs % 60` (in
/// the day of the instant; the second is 60 within a leap second), so that
/// 61 seconds after the epoch shows as `00:01:01`.
pub proof fn lemma_clock_text_fields(secs: i64, nanos: u32)
    requires
        nanos < 2_000_000_000,
    ensures
        clock_text(secs, nanos).len() == 8,
        clock_text(secs, nanos)[2] == ':',
        clock_text(secs, nanos)[5] == ':',
        parsed_unsigned(clock_text(secs, nanos).subrange(0, 2), u64::MAX as nat) == Some(
            (((secs as int) / 3600) % 24) as nat,
        ),
        parsed_unsigned(clock_text(secs, nanos).subrange(3, 5), u64::MAX as nat) == Some(
            (((secs as int) / 60) % 60) as nat,
        ),
        parsed_unsigned(clock_text(secs, nanos).subrange(6, 8), u64::MAX as nat) == Some(
            ((secs as int) % 60 + nanos / 1_000_000_000) as nat,
        ),
{
    reveal_strlit(":");
    let d = (secs as int) % 86400;
    let h = d / 3600;
    let m = (d / 60) % 60;
    let sec = d % 60 + nanos / 1_000_000_000;
    assert(h == ((secs as int) / 3600) % 24) by (nonlinear_arith)
        requires
            d == (secs as int) % 86400,
            h == d / 3600,
    ;
    assert(m == ((secs as int) / 60) % 60) by (nonlinear_arith)
        requires
            d == (secs as int) % 86400,
            m == (d / 60) % 60,
    ;
    assert(d % 60 == (secs as int) % 60) by (nonlinear_arith)
        requires
            d == (secs as int) % 86400,
    ;
    assert(0 <= h < 24);
    assert(0 <= m < 60);
    assert(0 <= sec <= 60);
    lemma_two_digits(h as nat);
    lemma_two_digits(m as nat);
    lemma_two_digits(sec as nat);
    let ct = clock_text(secs, nanos);
    assert(ct.subrange(0, 2) =~= zero_padded(h as nat, 2));
    assert(ct.subrange(3, 5) =~= zero_padded(m as nat, 2));
    assert(ct.subrange(6, 8) =~= zero_padded(sec as nat, 2));
}

/// The ids of `entries` are 1, 2, ..., in order.
pub open spec fn ids_consecutive(entries: Seq<RunEntry>) -> bool {
    forall|i: int| 0 <= i < entries.len() ==> #[trigger] entries[i].id == i + 1
}

/// A history whose ids are 1 to n, in order, gets n + 1 as its next id, and
/// recording a run under that id leaves ids 1 to n + 1, in order (for
/// histories of fewer than `u64::MAX` runs).
pub proof fn lemma_consecutive_ids(entries: Seq<RunEntry>, run: RunEntry)
    requires
        ids_consecutive(entries),
        entries.len() < u64::MAX,
        run.id == next_id_after(entries),
    ensures
        next_id_after(entries) == entries.len() + 1,
        ids_consecutive(entries.push(run)),
        ids_increasing(entries.push(run)),
{
    let s = entries.push(run);
    assert forall|i: int| 0 <= i < s.len() implies #[trigger] s[i].id == i + 1 by {
        if i < entries.len() {
            assert(s[i] == entries[i]);
        }
    }
}

/// Every run that a listing of the last `n` runs shows can be fetched by its
/// id, when ids increase along the history (as `next_id` keeps them): the
/// lookup finds that very run, not an earlier one with the same id.
pub proof fn lemma_listed_runs_fetchable(entries: Seq<RunEntry>, n: nat, k: int)
    requires
        ids_increasing(entries),
        0 <= k < last_runs(entries, n).len(),
    ensures
        run_with_id(entries, last_runs(entries, n)[k].id) == Some(last_runs(entries, n)[k]),
{
    let start = last_n_start(entries.len(), n) as int;
    let i = start + k;
    let run = entries[i];
    assert(last_runs(entries, n)[k] == run);
    assert forall|j: int| 0 <= j < i implies #[trigger] entries[j].id != run.id by {
        assert(entries[j].id < entries[i].id);
    }
    lemma_run_with_id_skip(entries, run.id, i);
    assert(entries.skip(i)[0] == run);
}

/// Distinct runs have distinct log files: their ids are written as distinct
/// names in the one log directory.
pub proof fn lemma_log_paths_distinct(storage: Storage, a: u64, b: u64)
    requires
        a != b,
    ensures
        join_path(join_path(storage@, ascii("logs"@)), log_file_name(a)) != join_path(
            join_path(storage@, ascii("logs"@)),
            log_file_name(b),
        ),
{
    let dir = join_path(storage@, ascii("logs"@));
    let na = log_file_name(a);
    let nb = log_file_name(b);
    if join_path(dir, na) == join_path(dir, nb) {
        let k: int = if dir.len() == 0 {
            0
        } else if dir.last() == 47u8 {
            dir.len() as int
        } else {
            dir.len() + 1int
        };
        assert(join_path(dir, na).skip(k) =~= na);
        assert(join_path(dir, nb).skip(k) =~= nb);
        let pa = zero_padded(a as nat, 4);
        let pb = zero_padded(b as nat, 4);
        lemma_zero_padded_digits(a as nat, 4);
        lemma_zero_padded_digits(b as nat, 4);
        assert(pa.len() == pb.len());
        assert forall|i: int| 0 <= i < pa.len() implies pa[i] == pb[i] by {
            assert(na[i] == (pa + ".log"@)[i] as u8);
            assert(nb[i] == (pb + ".log"@)[i] as u8);
            assert(is_digit(pa[i]));
            assert(is_digit(pb[i]));
        }
        assert(pa =~= pb);
        lemma_zero_padded_injective(a, b, 4);
    }
}

/// The path `path` names an entry of the directory `dir` (or something
/// below one): it is `dir` joined with some non-empty relative name.
pub open spec fn lies_under(path: Seq<u8>, dir: Seq<u8>) -> bool {
    exists|name: Seq<u8>| name.len() > 0 && path == #[trigger] join_path(dir, name)
}

/// The index file and the logs are kept apart: the index path is neither the
/// logs directory nor anything under it, while every run's log lies in it; so
/// no log can overwrite the index, whatever the history's directory.
pub proof fn lemma_index_apart_from_logs(storage: Storage)
    ensures
        join_path(storage@, ascii("index.jsonl"@)) != join_path(storage@, ascii("logs"@)),
        !lies_under(join_path(storage@, ascii("index.jsonl"@)), join_path(storage@, ascii("logs"@))),
        forall|id: u64|
            lies_under(
                #[trigger] join_path(join_path(storage@, ascii("logs"@)), log_file_name(id)),
                join_path(storage@, ascii("logs"@)),
            ),
        forall|id: u64|
            join_path(storage@, ascii("index.jsonl"@)) != #[trigger] join_path(
                join_path(storage@, ascii("logs"@)),
                log_file_name(id),
            ),
{
    reveal_strlit("index.jsonl");
    reveal_strlit("logs");
    reveal_strlit(".log");
    let base = storage@;
    let index_name = ascii("index.jsonl"@);
    let logs_name = ascii("logs"@);
    assert("index.jsonl"@.len() == 11);
    assert("logs"@.len() == 4);
    assert(".log"@.len() == 4);
    assert(index_name[0] == 105u8);
    assert(logs_name[0] == 108u8);
    assert(logs_name[3] == 115u8);
    let idx = join_path(base, index_name);
    let logs = join_path(base, logs_name);
    let k: int = if base.len() == 0 {
        0
    } else if base.last() == 47u8 {
        base.len() as int
    } else {
        base.len() + 1int
    };
    assert(idx[k] == 105u8);
    assert(logs[k] == 108u8);
    assert(logs.len() == k + 4);
    assert(logs.last() == 115u8);
    assert forall|name: Seq<u8>| name.len() > 0 implies idx != #[trigger] join_path(logs, name) by {
        assert(join_path(logs, name)[k] == 108u8);
    }
    assert forall|id: u64|
        lies_under(#[trigger] join_path(logs, log_file_name(id)), logs) by {
        lemma_zero_padded_digits(id as nat, 4);
        assert(log_file_name(id).len() > 0);
    }
}

impl Storage {
    /// The records of the index file whose text is `content`: its lines as
    /// `BufRead::lines` reads them, blank ones (empty once trimmed) skipped.
    pub fn index_records(content: &str) -> (r: Vec<String>)
        ensures
            views(r@) == index_records(content@),
    {
        let ls = lines(content);
        let mut r: Vec<String> = Vec::new();
        let mut i: usize = 0;
        while i < ls.len()
            invariant
                i <= ls.len(),
                views(ls@) == text_lines(content@),
                views(r@) == nonblank(views(ls@).take(i as int)),
            decreases ls.len() - i,
        {
            let ghost before = views(ls@).take(i as int);
            assert(views(ls@).take(i + 1).drop_last() =~= before);
            assert(views(ls@).take(i + 1).last() == ls@[i as int]@);
            if !is_blank(ls[i].as_str()) {
                let line = ls[i].clone();
                r.push(line);
                assert(views(r@) =~= nonblank(before).push(ls@[i as int]@));
            }
            i = i + 1;
        }
        assert(views(ls@).take(ls.len() as int) =~= views(ls@));
        r
    }

    /// The id that the next run gets: one more than the last run's, or 1 when
    /// `entries` is empty.
    pub fn next_id(entries: &[RunEntry]) -> (r: u64)
        requires
            entries@.len() > 0 ==> entries@.last().id < u64::MAX,
        ensures
            r == next_id_after(entries@),
    {
        if entries.len() == 0 {
            1
        } else {
            entries[entries.len() - 1].id + 1
        }
    }

    /// The last recorded run, if any.
    pub fn get_last(entries: &[RunEntry]) -> (r: Option<RunEntry>)
        ensures
            r == last_run(entries@),
    {
        if entries.len() == 0 {
            None
        } else {
            Some(entries[entries.len() - 1].clone())
        }
    }

    /// The last `n` recorded runs, oldest first; all of them when there are
    /// fewer than `n`.
    pub fn get_last_n(entries: &[RunEntry], n: usize) -> (r: Vec<RunEntry>)
        ensures
            r@ == last_runs(entries@, n as nat),
            r@.len() == if n <= entries@.len() { n as nat } else { entries@.len() },
            forall|i: int|
                0 <= i < r@.len() ==> r@[i] == #[trigger] entries@[entries@.len() - r@.len() + i],
    {
        let start: usize = if n >= entries.len() { 0 } else { entries.len() - n };
        let mut r: Vec<RunEntry> = Vec::new();
        let mut i = start;
        while i < entries.len()
            invariant
                start == last_n_start(entries@.len(), n as nat),
                start <= i <= entries.len(),
                r@ == entries@.subrange(start as int, i as int),
            decreases entries.len() - i,
        {
            r.push(entries[i].clone());
            i = i + 1;
            assert(r@ =~= entries@.subrange(start as int, i as int));
        }
        r
    }

    /// The last `n` recorded runs, newest first; all of them when there are
    /// fewer than `n`.
    pub fn latest_first(entries: &[RunEntry], n: usize) -> (r: Vec<RunEntry>)
        ensures
            r@ == last_runs(entries@, n as nat).reverse(),
    {
        let recent = Storage::get_last_n(entries, n);
        let mut runs: Vec<RunEntry> = Vec::new();
        let mut i: usize = recent.len();
        while i > 0
            invariant
                i <= recent.len(),
                runs@ == recent@.subrange(i as int, recent@.len() as int).reverse(),
            decreases i,
        {
            i = i - 1;
            runs.push(recent[i].clone());
            assert(runs@ =~= recent@.subrange(i as int, recent@.len() as int).reverse());
        }
        assert(recent@.subrange(0, recent@.len() as int) =~= recent@);
        runs
    }

    /// The first recorded run with id `id`, if any.
    pub fn get_by_id(entries: &[RunEntry], id: u64) -> (r: Option<RunEntry>)
        ensures
            r == run_with_id(entries@, id),
    {
        let mut i: usize = 0;
        while i < entries.len()
            invariant
                i <= entries.len(),
                forall|j: int| 0 <= j < i ==> #[trigger] entries@[j].id != id,
            decreases entries.len() - i,
        {
            if entries[i].id == id {
                proof {
                    lemma_run_with_id_skip(entries@, id, i as int);
                }
                return Some(entries[i].clone());
            }
            i = i + 1;
        }
        proof {
            lemma_run_with_id_skip(entries@, id, i as int);
        }
        None
    }
}

} // verus!
