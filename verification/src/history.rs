//! The log of update rounds: bounded, oldest entries dropped first, and
//! exportable as CSV.

use vstd::prelude::*;
use crate::config::AppConfig;
use crate::paths::{join_path_with, path_join};
use crate::text::{chars_of, copy_text_opt, string_from_chars, text_or};

verus! {

/// Most entries the history keeps.
pub const MAX_ENTRIES: usize = 100;
/// Name of the history file inside the configuration directory.
pub const HISTORY_FILE_NAME: &'static str = "update_history.json";
/// Name of the CSV export inside the configuration directory.
pub const CSV_EXPORT_FILE_NAME: &'static str = "duckdns_history_export.csv";

/// One update round as the history records it.
#[derive(Debug, Clone)]
pub struct HistoryEntry {
    pub timestamp: String,
    pub domains: String,
    pub old_ipv4: Option<String>,
    pub new_ipv4: Option<String>,
    pub old_ipv6: Option<String>,
    pub new_ipv6: Option<String>,
    pub success: bool,
    pub message: String,
}

/// The update history, oldest entry first.
#[derive(Debug, Clone)]
pub struct UpdateHistory {
    pub entries: Vec<HistoryEntry>,
}

/// The entries kept of `s`: the last `MAX_ENTRIES` of them.
pub open spec fn kept(s: Seq<HistoryEntry>) -> Seq<HistoryEntry> {
    if s.len() > MAX_ENTRIES {
        s.subrange(s.len() - MAX_ENTRIES, s.len() as int)
    } else {
        s
    }
}

/// A CSV field must be quoted when it holds a comma, a quote or a line break.
pub open spec fn needs_quotes(s: Seq<char>) -> bool {
    s.contains(',') || s.contains('"') || s.contains('\n')
}

/// `s` with every `"` doubled.
pub open spec fn double_quotes(s: Seq<char>) -> Seq<char>
    decreases s.len(),
{
    if s.len() == 0 {
        Seq::empty()
    } else if s.last() == '"' {
        double_quotes(s.drop_last()) + seq!['"', '"']
    } else {
        double_quotes(s.drop_last()).push(s.last())
    }
}

/// `s` as a CSV field: unchanged, or quoted with inner quotes doubled when
/// it needs quoting.
pub open spec fn csv_field(s: Seq<char>) -> Seq<char> {
    if needs_quotes(s) {
        seq!['"'] + double_quotes(s) + seq!['"']
    } else {
        s
    }
}

/// The first line of the CSV export.
pub open spec fn csv_header() -> Seq<char> {
    "Data/Hora,Domínios,IPv4 Anterior,IPv4 Novo,IPv6 Anterior,IPv6 Novo,Status,Mensagem\n"@
}

/// An optional address as a CSV field (an absent one is an empty field).
pub open spec fn opt_field(o: Option<String>) -> Seq<char> {
    csv_field(text_or(o, Seq::empty()))
}

/// The CSV line of one entry.
pub open spec fn csv_row(e: HistoryEntry) -> Seq<char> {
    csv_field(e.timestamp@) + seq![','] + csv_field(e.domains@) + seq![','] + opt_field(e.old_ipv4)
        + seq![','] + opt_field(e.new_ipv4) + seq![','] + opt_field(e.old_ipv6) + seq![',']
        + opt_field(e.new_ipv6) + seq![','] + (if e.success {
        "OK"@
    } else {
        "FALHA"@
    }) + seq![','] + csv_field(e.message@) + seq!['\n']
}

/// The CSV lines of the entries, in order.
pub open spec fn csv_rows(es: Seq<HistoryEntry>) -> Seq<char>
    decreases es.len(),
{
    if es.len() == 0 {
        Seq::empty()
    } else {
        csv_rows(es.drop_last()) + csv_row(es.last())
    }
}

/// The whole CSV export of the entries.
pub open spec fn csv_document(es: Seq<HistoryEntry>) -> Seq<char> {
    csv_header() + csv_rows(es)
}

/// A CSV reader's reading of an unquoted field at the start of `s`: the
/// characters up to the first `,` or line break, and what follows them.
pub open spec fn read_unquoted(s: Seq<char>) -> (Seq<char>, Seq<char>)
    decreases s.len(),
{
    if s.len() == 0 || s[0] == ',' || s[0] == '\n' {
        (Seq::empty(), s)
    } else {
        let (f, r) = read_unquoted(s.drop_first());
        (seq![s[0]] + f, r)
    }
}

/// A CSV reader's reading of a quoted field whose opening quote is already
/// read: up to the first quote not doubled, a doubled quote standing for one;
/// and what follows the closing quote.
pub open spec fn read_quoted(s: Seq<char>) -> (Seq<char>, Seq<char>)
    decreases s.len(),
{
    if s.len() == 0 {
        (Seq::empty(), Seq::empty())
    } else if s[0] == '"' {
        if s.len() >= 2 && s[1] == '"' {
            let (f, r) = read_quoted(s.subrange(2, s.len() as int));
            (seq!['"'] + f, r)
        } else {
            (Seq::empty(), s.drop_first())
        }
    } else {
        let (f, r) = read_quoted(s.drop_first());
        (seq![s[0]] + f, r)
    }
}

/// A CSV reader's reading of the field at the start of `s`, and what follows it.
pub open spec fn read_field(s: Seq<char>) -> (Seq<char>, Seq<char>) {
    if s.len() > 0 && s[0] == '"' {
        read_quoted(s.drop_first())
    } else {
        read_unquoted(s)
    }
}

proof fn lemma_read_unquoted_rest(s: Seq<char>)
    ensures
        read_unquoted(s).1.len() <= s.len(),
        read_unquoted(s).1.len() == 0 || read_unquoted(s).1[0] == ',' || read_unquoted(s).1[0]
            == '\n',
    decreases s.len(),
{
    if !(s.len() == 0 || s[0] == ',' || s[0] == '\n') {
        lemma_read_unquoted_rest(s.drop_first());
    }
}

proof fn lemma_read_quoted_rest(s: Seq<char>)
    ensures
        read_quoted(s).1.len() <= s.len(),
    decreases s.len(),
{
    if s.len() > 0 {
        if s[0] == '"' {
            if s.len() >= 2 && s[1] == '"' {
                lemma_read_quoted_rest(s.subrange(2, s.len() as int));
            }
        } else {
            lemma_read_quoted_rest(s.drop_first());
        }
    }
}

/// Reading a field never lengthens the text left, and shortens it unless
/// the field is an empty unquoted one ending at a `,` or line break.
pub proof fn lemma_read_field_rest(s: Seq<char>)
    ensures
        read_field(s).1.len() <= s.len(),
        s.len() > 0 && read_field(s).1.len() == s.len() ==> (s[0] == ',' || s[0] == '\n'),
{
    if s.len() > 0 && s[0] == '"' {
        lemma_read_quoted_rest(s.drop_first());
    } else {
        lemma_read_unquoted_rest(s);
        if s.len() > 0 && !(s[0] == ',' || s[0] == '\n') {
            lemma_read_unquoted_rest(s.drop_first());
        }
    }
}

/// A CSV reader's reading of the record at the start of `s`: its fields,
/// separated by `,` and ended by a line break (or the end of the text); and
/// the text after it.
pub open spec fn read_record(s: Seq<char>) -> (Seq<Seq<char>>, Seq<char>)
    decreases s.len(),
{
    let (f, r) = read_field(s);
    proof {
        lemma_read_field_rest(s);
    }
    if r.len() > 0 && r[0] == ',' {
        let (fs, rest) = read_record(r.drop_first());
        (seq![f] + fs, rest)
    } else if r.len() > 0 && r[0] == '\n' {
        (seq![f], r.drop_first())
    } else {
        (seq![f], r)
    }
}

pub proof fn lemma_read_record_rest(s: Seq<char>)
    ensures
        read_record(s).1.len() <= s.len(),
        s.len() > 0 ==> read_record(s).1.len() < s.len(),
    decreases s.len(),
{
    let (f, r) = read_field(s);
    lemma_read_field_rest(s);
    if s.len() > 0 && !(s[0] == '"') && !(s[0] == ',' || s[0] == '\n') {
        lemma_read_unquoted_rest(s.drop_first());
    }
    if s.len() > 0 && s[0] != '"' {
        lemma_read_unquoted_rest(s);
    }
    if r.len() > 0 && r[0] == ',' {
        lemma_read_record_rest(r.drop_first());
    }
}

/// A CSV reader's reading of a whole text: its records, in order.
pub open spec fn read_records(s: Seq<char>) -> Seq<Seq<Seq<char>>>
    decreases s.len(),
{
    if s.len() == 0 {
        Seq::empty()
    } else {
        let (rec, rest) = read_record(s);
        proof {
            lemma_read_record_rest(s);
        }
        seq![rec] + read_records(rest)
    }
}

/// The fields joined by `,`, each written as a CSV field.
pub open spec fn encode_fields(fs: Seq<Seq<char>>) -> Seq<char>
    decreases fs.len(),
{
    if fs.len() <= 1 {
        if fs.len() == 1 {
            csv_field(fs[0])
        } else {
            Seq::empty()
        }
    } else {
        csv_field(fs[0]) + seq![','] + encode_fields(fs.drop_first())
    }
}

/// A CSV line: the fields joined by `,`, then a line break.
pub open spec fn encode_record(fs: Seq<Seq<char>>) -> Seq<char> {
    encode_fields(fs) + seq!['\n']
}

/// The fields of the header line.
pub open spec fn header_fields() -> Seq<Seq<char>> {
    seq![
        "Data/Hora"@,
        "Domínios"@,
        "IPv4 Anterior"@,
        "IPv4 Novo"@,
        "IPv6 Anterior"@,
        "IPv6 Novo"@,
        "Status"@,
        "Mensagem"@,
    ]
}

/// The fields of an entry's line.
pub open spec fn entry_fields(e: HistoryEntry) -> Seq<Seq<char>> {
    seq![
        e.timestamp@,
        e.domains@,
        text_or(e.old_ipv4, Seq::empty()),
        text_or(e.new_ipv4, Seq::empty()),
        text_or(e.old_ipv6, Seq::empty()),
        text_or(e.new_ipv6, Seq::empty()),
        if e.success {
            "OK"@
        } else {
            "FALHA"@
        },
        e.message@,
    ]
}

/// Whether `c` occurs in `v`.
fn has_char(v: &Vec<char>, c: char) -> (r: bool)
    ensures
        r == v@.contains(c),
{
    let mut i: usize = 0;
    while i < v.len()
        invariant
            i <= v.len(),
            forall|j: int| 0 <= j < i ==> v@[j] != c,
        decreases v.len() - i,
    {
        if v[i] == c {
            assert(v@[i as int] == c);
            return true;
        }
        i += 1;
    }
    false
}

/// `s` as a CSV field (see `csv_field`).
pub fn csv_escape(s: &str) -> (r: String)
    ensures
        r@ == csv_field(s@),
{
    let v = chars_of(s);
    if has_char(&v, ',') || has_char(&v, '"') || has_char(&v, '\n') {
        let mut out: Vec<char> = Vec::new();
        out.push('"');
        let mut i: usize = 0;
        assert(v@.take(0) =~= Seq::<char>::empty());
        while i < v.len()
            invariant
                i <= v.len(),
                out@ == seq!['"'] + double_quotes(v@.take(i as int)),
            decreases v.len() - i,
        {
            let c = v[i];
            assert(v@.take(i + 1).drop_last() =~= v@.take(i as int));
            assert(v@.take(i + 1).last() == c);
            if c == '"' {
                out.push('"');
                out.push('"');
            } else {
                out.push(c);
            }
            assert(out@ =~= seq!['"'] + double_quotes(v@.take(i + 1)));
            i += 1;
        }
        assert(v@.take(v.len() as int) =~= v@);
        out.push('"');
        assert(out@ =~= csv_field(s@));
        string_from_chars(out.as_slice())
    } else {
        string_from_chars(v.as_slice())
    }
}

/// An optional address as a CSV field.
fn opt_csv_field(o: &Option<String>) -> (r: String)
    ensures
        r@ == opt_field(*o),
{
    match o {
        Some(s) => csv_escape(s.as_str()),
        None => {
            let r = String::new();
            assert(!needs_quotes(Seq::<char>::empty()));
            r
        },
    }
}

/// The CSV line of one entry.
fn csv_line(e: &HistoryEntry) -> (r: String)
    ensures
        r@ == csv_row(*e),
{
    let mut line = csv_escape(e.timestamp.as_str());
    line.append(",");
    line.append(csv_escape(e.domains.as_str()).as_str());
    line.append(",");
    line.append(opt_csv_field(&e.old_ipv4).as_str());
    line.append(",");
    line.append(opt_csv_field(&e.new_ipv4).as_str());
    line.append(",");
    line.append(opt_csv_field(&e.old_ipv6).as_str());
    line.append(",");
    line.append(opt_csv_field(&e.new_ipv6).as_str());
    line.append(",");
    if e.success {
        line.append("OK");
    } else {
        line.append("FALHA");
    }
    line.append(",");
    line.append(csv_escape(e.message.as_str()).as_str());
    line.append("\n");
    proof {
        reveal_strlit(",");
        reveal_strlit("\n");
        assert(","@ =~= seq![',']);
        assert("\n"@ =~= seq!['\n']);
    }
    assert(line@ =~= csv_row(*e));
    line
}

impl HistoryEntry {
    /// The entry for a round started from the window: the recorded addresses
    /// (the last known ones) as both old and new values.
    pub fn for_manual_update(
        config: &AppConfig,
        timestamp: String,
        success: bool,
        message: &str,
    ) -> (r: HistoryEntry)
        ensures
            r.timestamp == timestamp,
            r.domains@ == config.csv_view(),
            r.old_ipv4 == config.last_ipv4,
            r.new_ipv4 == config.last_ipv4,
            r.old_ipv6 == config.last_ipv6,
            r.new_ipv6 == config.last_ipv6,
            r.success == success,
            r.message@ == message@,
    {
        HistoryEntry {
            timestamp,
            domains: config.domains_csv(),
            old_ipv4: copy_text_opt(&config.last_ipv4),
            new_ipv4: copy_text_opt(&config.last_ipv4),
            old_ipv6: copy_text_opt(&config.last_ipv6),
            new_ipv6: copy_text_opt(&config.last_ipv6),
            success,
            message: String::from_str(message),
        }
    }

    /// The entry for a successful round made in the background, noticed when
    /// the settings saved by it are reloaded: stamped with their time of last
    /// update (empty if none), the addresses known before as the old values
    /// and the reloaded ones as the new.
    pub fn for_background_update(
        old_ipv4: Option<String>,
        old_ipv6: Option<String>,
        config: &AppConfig,
        message: &str,
    ) -> (r: HistoryEntry)
        ensures
            r.timestamp@ == text_or(config.last_update, Seq::empty()),
            r.domains@ == config.csv_view(),
            r.old_ipv4 == old_ipv4,
            r.new_ipv4 == config.last_ipv4,
            r.old_ipv6 == old_ipv6,
            r.new_ipv6 == config.last_ipv6,
            r.success,
            r.message@ == message@,
    {
        let timestamp = match &config.last_update {
            Some(t) => t.clone(),
            None => String::new(),
        };
        HistoryEntry {
            timestamp,
            domains: config.domains_csv(),
            old_ipv4,
            new_ipv4: copy_text_opt(&config.last_ipv4),
            old_ipv6,
            new_ipv6: copy_text_opt(&config.last_ipv6),
            success: true,
            message: String::from_str(message),
        }
    }
}

impl Default for UpdateHistory {
    fn default() -> (r: Self)
        ensures
            r.entries@.len() == 0,
    {
        UpdateHistory { entries: Vec::new() }
    }
}

impl UpdateHistory {
    /// Path of the history file inside the configuration directory `dir`,
    /// `sep` being the platform's main path separator.
    pub fn get_path(dir: &str, sep: char) -> (r: String)
        ensures
            r@ == path_join(dir@, HISTORY_FILE_NAME@, sep),
    {
        join_path_with(dir, HISTORY_FILE_NAME, sep)
    }

    /// Path of the CSV export inside the configuration directory `dir`,
    /// `sep` being the platform's main path separator.
    pub fn csv_export_path(dir: &str, sep: char) -> (r: String)
        ensures
            r@ == path_join(dir@, CSV_EXPORT_FILE_NAME@, sep),
    {
        join_path_with(dir, CSV_EXPORT_FILE_NAME, sep)
    }

    /// Drops the oldest entries beyond `MAX_ENTRIES`.
    fn drop_oldest(&mut self)
        ensures
            final(self).entries@ == kept(old(self).entries@),
    {
        let ghost all = self.entries@;
        let ghost drop: int = if all.len() > MAX_ENTRIES {
            all.len() - MAX_ENTRIES
        } else {
            0
        };
        let ghost mut removed: int = 0;
        assert(all.subrange(0, all.len() as int) =~= all);
        while self.entries.len() > MAX_ENTRIES
            invariant
                0 <= removed <= drop,
                self.entries@ == all.subrange(removed, all.len() as int),
                drop == (if all.len() > MAX_ENTRIES {
                    all.len() - MAX_ENTRIES
                } else {
                    0
                }),
            decreases self.entries.len(),
        {
            self.entries.remove(0);
            proof {
                assert(self.entries@ =~= all.subrange(removed + 1, all.len() as int));
                removed = removed + 1;
            }
        }
        assert(self.entries@ =~= kept(all));
    }

    /// The history made of stored entries (oldest first): the last
    /// `MAX_ENTRIES` of them, so a stored history holds the bound too.
    pub fn from_entries(entries: Vec<HistoryEntry>) -> (r: UpdateHistory)
        ensures
            r.entries@ == kept(entries@),
    {
        let mut h = UpdateHistory { entries };
        h.drop_oldest();
        h
    }

    /// Appends `entry`, then drops the oldest entries beyond `MAX_ENTRIES`.
    pub fn add_entry(&mut self, entry: HistoryEntry)
        ensures
            final(self).entries@ == kept(old(self).entries@.push(entry)),
    {
        self.entries.push(entry);
        self.drop_oldest();
    }

    /// The history as CSV: the header line, then one line per entry, oldest first.
    pub fn export_csv(&self) -> (r: String)
        ensures
            r@ == csv_document(self.entries@),
    {
        let mut csv = String::from_str(
            "Data/Hora,Domínios,IPv4 Anterior,IPv4 Novo,IPv6 Anterior,IPv6 Novo,Status,Mensagem\n",
        );
        let n = self.entries.len();
        let mut i: usize = 0;
        assert(self.entries@.take(0) =~= Seq::<HistoryEntry>::empty());
        while i < n
            invariant
                i <= n,
                n == self.entries@.len(),
                csv@ == csv_header() + csv_rows(self.entries@.take(i as int)),
            decreases n - i,
        {
            let line = csv_line(&self.entries[i]);
            csv.append(line.as_str());
            assert(self.entries@.take(i + 1).drop_last() =~= self.entries@.take(i as int));
            assert(self.entries@.take(i + 1).last() == self.entries@[i as int]);
            assert(csv@ =~= csv_header() + csv_rows(self.entries@.take(i + 1)));
            i += 1;
        }
        assert(self.entries@.take(n as int) =~= self.entries@);
        csv
    }

    /// Positions of the latest `limit` entries, newest first (what the
    /// history panel lists).
    pub fn recent(&self, limit: usize) -> (r: Vec<usize>)
        ensures
            r@.len() == (if limit < self.entries@.len() {
                limit as int
            } else {
                self.entries@.len() as int
            }),
            forall|k: int| 0 <= k < r@.len() ==> r@[k] == self.entries@.len() - 1 - k,
    {
        let n = self.entries.len();
        let count = if limit < n {
            limit
        } else {
            n
        };
        let mut r: Vec<usize> = Vec::new();
        let mut k: usize = 0;
        while k < count
            invariant
                k <= count <= n,
                n == self.entries@.len(),
                r@.len() == k,
                forall|j: int| 0 <= j < k ==> r@[j] == n - 1 - j,
            decreases count - k,
        {
            r.push(n - 1 - k);
            k += 1;
        }
        r
    }
}

/// A CSV reader's view of one field: a quoted field loses its quotes and has
/// its doubled quotes undone; any other field is read as it stands.
pub open spec fn csv_unquote(f: Seq<char>) -> Seq<char> {
    if f.len() >= 2 && f[0] == '"' && f.last() == '"' {
        undouble_quotes(f.subrange(1, f.len() - 1))
    } else {
        f
    }
}

/// `t` with each doubled quote read as a single one.
pub open spec fn undouble_quotes(t: Seq<char>) -> Seq<char>
    decreases t.len(),
{
    if t.len() == 0 {
        Seq::empty()
    } else if t.len() >= 2 && t.last() == '"' && t[t.len() - 2] == '"' {
        undouble_quotes(t.subrange(0, t.len() - 2)).push('"')
    } else {
        undouble_quotes(t.drop_last()).push(t.last())
    }
}

proof fn lemma_undouble_double(s: Seq<char>)
    ensures
        undouble_quotes(double_quotes(s)) == s,
    decreases s.len(),
{
    if s.len() > 0 {
        let init = s.drop_last();
        lemma_undouble_double(init);
        let d = double_quotes(init);
        if s.last() == '"' {
            let t = d + seq!['"', '"'];
            assert(t.subrange(0, t.len() - 2) =~= d);
            assert(undouble_quotes(t) == undouble_quotes(d).push('"'));
        } else {
            let t = d.push(s.last());
            assert(t.drop_last() =~= d);
            assert(undouble_quotes(t) == undouble_quotes(d).push(s.last()));
        }
        assert(init.push(s.last()) =~= s);
    }
}

/// Law: every field of the CSV export reads back as the text it came from.
pub proof fn lemma_csv_field_roundtrip(s: Seq<char>)
    ensures
        csv_unquote(csv_field(s)) == s,
{
    if needs_quotes(s) {
        let f = seq!['"'] + double_quotes(s) + seq!['"'];
        assert(f.subrange(1, f.len() - 1) =~= double_quotes(s));
        lemma_undouble_double(s);
    } else {
        assert(!s.contains('"'));
        if s.len() >= 2 {
            assert(s[0] != '"');
        }
    }
}

/// The entries after adding each of `new` in turn (see `UpdateHistory::add_entry`).
pub open spec fn add_each(entries: Seq<HistoryEntry>, new: Seq<HistoryEntry>) -> Seq<HistoryEntry>
    decreases new.len(),
{
    if new.len() == 0 {
        entries
    } else {
        add_each(kept(entries.push(new[0])), new.drop_first())
    }
}

proof fn lemma_kept_absorbs(a: Seq<HistoryEntry>, b: Seq<HistoryEntry>)
    ensures
        kept(kept(a) + b) == kept(a + b),
{
    if a.len() > MAX_ENTRIES {
        let ka = a.subrange(a.len() - MAX_ENTRIES, a.len() as int);
        let x = ka + b;
        let y = a + b;
        assert(x.len() > MAX_ENTRIES || b.len() == 0);
        if b.len() == 0 {
            assert(x =~= ka);
            assert(y =~= a);
            assert(kept(ka) =~= ka);
        } else {
            assert(kept(x) =~= kept(y));
        }
    }
}

/// Law: adding entries one by one keeps the last `MAX_ENTRIES` of all of
/// them, oldest first; the history grows by the number added until full.
pub proof fn lemma_add_each(entries: Seq<HistoryEntry>, new: Seq<HistoryEntry>)
    requires
        entries.len() <= MAX_ENTRIES,
    ensures
        add_each(entries, new) == kept(entries + new),
        entries.len() + new.len() <= MAX_ENTRIES ==> add_each(entries, new).len() == entries.len()
            + new.len(),
    decreases new.len(),
{
    if new.len() == 0 {
        assert(entries + new =~= entries);
    } else {
        let next = kept(entries.push(new[0]));
        lemma_add_each(next, new.drop_first());
        lemma_kept_absorbs(entries.push(new[0]), new.drop_first());
        assert(entries.push(new[0]) + new.drop_first() =~= entries + new);
    }
}

proof fn lemma_double_quotes_concat(a: Seq<char>, b: Seq<char>)
    ensures
        double_quotes(a + b) == double_quotes(a) + double_quotes(b),
    decreases b.len(),
{
    if b.len() == 0 {
        assert(a + b =~= a);
        assert(double_quotes(a) + double_quotes(b) =~= double_quotes(a));
    } else {
        lemma_double_quotes_concat(a, b.drop_last());
        assert((a + b).drop_last() =~= a + b.drop_last());
        assert((a + b).last() == b.last());
        if b.last() == '"' {
            assert(double_quotes(a) + double_quotes(b) =~= double_quotes(a) + double_quotes(
                b.drop_last(),
            ) + seq!['"', '"']);
        } else {
            assert(double_quotes(a) + double_quotes(b) =~= (double_quotes(a) + double_quotes(
                b.drop_last(),
            )).push(b.last()));
        }
    }
}

proof fn lemma_read_unquoted_plain(x: Seq<char>, tail: Seq<char>)
    requires
        !needs_quotes(x),
        tail.len() == 0 || tail[0] == ',' || tail[0] == '\n',
    ensures
        read_unquoted(x + tail) == (x, tail),
    decreases x.len(),
{
    let s = x + tail;
    if x.len() == 0 {
        assert(s =~= tail);
        assert(read_unquoted(s).0 =~= x);
    } else {
        let x1 = x.drop_first();
        assert(x[0] != ',' && x[0] != '\n') by {
            assert(x.contains(x[0]));
        }
        assert(!needs_quotes(x1)) by {
            if x1.contains(',') || x1.contains('"') || x1.contains('\n') {
                let i = choose|i: int| 0 <= i < x1.len() && (x1[i] == ',' || x1[i] == '"' || x1[i]
                    == '\n');
                assert(x[i + 1] == x1[i]);
            }
        }
        lemma_read_unquoted_plain(x1, tail);
        assert(s.drop_first() =~= x1 + tail);
        assert(s[0] == x[0]);
        assert(seq![x[0]] + x1 =~= x);
    }
}

proof fn lemma_read_quoted_doubled(x: Seq<char>, tail: Seq<char>)
    requires
        tail.len() == 0 || tail[0] != '"',
    ensures
        read_quoted(double_quotes(x) + seq!['"'] + tail) == (x, tail),
    decreases x.len(),
{
    let s = double_quotes(x) + seq!['"'] + tail;
    if x.len() == 0 {
        assert(double_quotes(x) =~= Seq::<char>::empty());
        assert(s =~= seq!['"'] + tail);
        assert(s.drop_first() =~= tail);
        assert(read_quoted(s).0 =~= x);
    } else {
        let c = x[0];
        let x1 = x.drop_first();
        assert(x =~= seq![c] + x1);
        lemma_double_quotes_concat(seq![c], x1);
        assert(seq![c].drop_last() =~= Seq::<char>::empty());
        assert(seq![c].last() == c);
        assert(double_quotes(Seq::<char>::empty()) == Seq::<char>::empty());
        lemma_read_quoted_doubled(x1, tail);
        let t = double_quotes(x1) + seq!['"'] + tail;
        if c == '"' {
            assert(double_quotes(seq![c]) == double_quotes(seq![c].drop_last()) + seq!['"', '"']);
            assert(double_quotes(seq![c]) =~= seq!['"', '"']);
            assert(s =~= seq!['"', '"'] + t);
            assert(s.subrange(2, s.len() as int) =~= t);
            assert(read_quoted(s) == (seq!['"'] + x1, tail));
        } else {
            assert(double_quotes(seq![c]) == double_quotes(seq![c].drop_last()).push(c));
            assert(double_quotes(seq![c]) =~= seq![c]);
            assert(s =~= seq![c] + t);
            assert(s.drop_first() =~= t);
            assert(read_quoted(s) == (seq![c] + x1, tail));
        }
    }
}

proof fn lemma_read_field_encoded(x: Seq<char>, tail: Seq<char>)
    requires
        tail.len() > 0,
        tail[0] == ',' || tail[0] == '\n',
    ensures
        read_field(csv_field(x) + tail) == (x, tail),
{
    let s = csv_field(x) + tail;
    if needs_quotes(x) {
        assert(s =~= seq!['"'] + (double_quotes(x) + seq!['"'] + tail));
        assert(s.drop_first() =~= double_quotes(x) + seq!['"'] + tail);
        lemma_read_quoted_doubled(x, tail);
    } else {
        if x.len() > 0 {
            assert(x.contains(x[0]));
            assert(s[0] == x[0]);
        } else {
            assert(s[0] == tail[0]);
        }
        lemma_read_unquoted_plain(x, tail);
    }
}

proof fn lemma_read_record_encoded(fs: Seq<Seq<char>>, rest: Seq<char>)
    requires
        fs.len() >= 1,
    ensures
        read_record(encode_record(fs) + rest) == (fs, rest),
    decreases fs.len(),
{
    let s = encode_record(fs) + rest;
    if fs.len() == 1 {
        let tail = seq!['\n'] + rest;
        assert(s =~= csv_field(fs[0]) + tail);
        lemma_read_field_encoded(fs[0], tail);
        assert(tail.drop_first() =~= rest);
        assert(seq![fs[0]] =~= fs);
    } else {
        let fs1 = fs.drop_first();
        let tail = seq![','] + (encode_record(fs1) + rest);
        assert(s =~= csv_field(fs[0]) + tail);
        lemma_read_field_encoded(fs[0], tail);
        assert(tail.drop_first() =~= encode_record(fs1) + rest);
        lemma_read_record_encoded(fs1, rest);
        assert(seq![fs[0]] + fs1 =~= fs);
    }
}

proof fn lemma_plain_field(f: Seq<char>)
    requires
        forall|i: int| 0 <= i < f.len() ==> f[i] != ',' && f[i] != '"' && f[i] != '\n',
    ensures
        csv_field(f) == f,
{
}

proof fn lemma_encode_fields_snoc(fs: Seq<Seq<char>>, f: Seq<char>)
    requires
        fs.len() >= 1,
    ensures
        encode_fields(fs.push(f)) == encode_fields(fs) + seq![','] + csv_field(f),
    decreases fs.len(),
{
    let g = fs.push(f);
    if fs.len() == 1 {
        assert(g.drop_first() =~= seq![f]);
        assert(encode_fields(seq![f]) == csv_field(f));
    } else {
        assert(g.drop_first() =~= fs.drop_first().push(f));
        lemma_encode_fields_snoc(fs.drop_first(), f);
        assert(encode_fields(g) =~= encode_fields(fs) + seq![','] + csv_field(f));
    }
}

proof fn lemma_csv_row_encoded(e: HistoryEntry)
    ensures
        csv_row(e) == encode_record(entry_fields(e)),
{
    reveal_strlit("OK");
    reveal_strlit("FALHA");
    lemma_plain_field("OK"@);
    lemma_plain_field("FALHA"@);
    let status: Seq<char> = if e.success {
        "OK"@
    } else {
        "FALHA"@
    };
    assert(csv_field(status) == status);
    let g0 = seq![e.timestamp@];
    let g1 = g0.push(e.domains@);
    let g2 = g1.push(text_or(e.old_ipv4, Seq::empty()));
    let g3 = g2.push(text_or(e.new_ipv4, Seq::empty()));
    let g4 = g3.push(text_or(e.old_ipv6, Seq::empty()));
    let g5 = g4.push(text_or(e.new_ipv6, Seq::empty()));
    let g6 = g5.push(status);
    let g7 = g6.push(e.message@);
    assert(encode_fields(g0) == csv_field(e.timestamp@));
    lemma_encode_fields_snoc(g0, e.domains@);
    lemma_encode_fields_snoc(g1, text_or(e.old_ipv4, Seq::empty()));
    lemma_encode_fields_snoc(g2, text_or(e.new_ipv4, Seq::empty()));
    lemma_encode_fields_snoc(g3, text_or(e.old_ipv6, Seq::empty()));
    lemma_encode_fields_snoc(g4, text_or(e.new_ipv6, Seq::empty()));
    lemma_encode_fields_snoc(g5, status);
    lemma_encode_fields_snoc(g6, e.message@);
    assert(g7 =~= entry_fields(e));
}

proof fn lemma_csv_header_encoded()
    ensures
        csv_header() == encode_record(header_fields()),
{
    reveal_strlit(
        "Data/Hora,Domínios,IPv4 Anterior,IPv4 Novo,IPv6 Anterior,IPv6 Novo,Status,Mensagem\n",
    );
    reveal_strlit("Data/Hora");
    reveal_strlit("Domínios");
    reveal_strlit("IPv4 Anterior");
    reveal_strlit("IPv4 Novo");
    reveal_strlit("IPv6 Anterior");
    reveal_strlit("IPv6 Novo");
    reveal_strlit("Status");
    reveal_strlit("Mensagem");
    let h = header_fields();
    lemma_plain_field(h[0]);
    lemma_plain_field(h[1]);
    lemma_plain_field(h[2]);
    lemma_plain_field(h[3]);
    lemma_plain_field(h[4]);
    lemma_plain_field(h[5]);
    lemma_plain_field(h[6]);
    lemma_plain_field(h[7]);
    reveal_with_fuel(encode_fields, 8);
    assert(csv_header() =~= encode_record(h));
}

proof fn lemma_rows_front(es: Seq<HistoryEntry>)
    requires
        es.len() > 0,
    ensures
        csv_rows(es) == csv_row(es[0]) + csv_rows(es.drop_first()),
    decreases es.len(),
{
    if es.len() == 1 {
        assert(es.drop_last() =~= Seq::<HistoryEntry>::empty());
        assert(es.drop_first() =~= Seq::<HistoryEntry>::empty());
        assert(csv_rows(es) =~= csv_row(es[0]) + csv_rows(es.drop_first()));
    } else {
        let init = es.drop_last();
        lemma_rows_front(init);
        assert(es.drop_first().drop_last() =~= init.drop_first());
        assert(es.drop_first().last() == es.last());
        assert(init[0] == es[0]);
        assert(csv_rows(es) =~= csv_row(es[0]) + csv_rows(es.drop_first()));
    }
}

proof fn lemma_read_rows(es: Seq<HistoryEntry>)
    ensures
        read_records(csv_rows(es)) == es.map_values(|e: HistoryEntry| entry_fields(e)),
    decreases es.len(),
{
    if es.len() == 0 {
        assert(csv_rows(es) =~= Seq::<char>::empty());
        assert(es.map_values(|e: HistoryEntry| entry_fields(e)) =~= Seq::<Seq<Seq<char>>>::empty());
    } else {
        let rest = csv_rows(es.drop_first());
        lemma_rows_front(es);
        lemma_csv_row_encoded(es[0]);
        lemma_read_record_encoded(entry_fields(es[0]), rest);
        lemma_read_rows(es.drop_first());
        let s = csv_rows(es);
        assert(s.len() > 0);
        assert(read_records(s) == seq![entry_fields(es[0])] + read_records(rest));
        assert(es.map_values(|e: HistoryEntry| entry_fields(e)) =~= seq![entry_fields(es[0])]
            + es.drop_first().map_values(|e: HistoryEntry| entry_fields(e)));
    }
}

/// Law: the CSV export reads back, with a CSV reader (quoted fields, doubled
/// quotes, records ended by line breaks), as the header's fields followed by
/// one record per entry, oldest first, holding the entry's fields; the export
/// ends with a line break.
pub proof fn lemma_csv_document_reads_back(es: Seq<HistoryEntry>)
    ensures
        read_records(csv_document(es)) == seq![header_fields()] + es.map_values(
            |e: HistoryEntry| entry_fields(e),
        ),
        csv_document(es).len() > 0,
        csv_document(es).last() == '\n',
{
    lemma_csv_header_encoded();
    let rows = csv_rows(es);
    let s = csv_document(es);
    lemma_read_record_encoded(header_fields(), rows);
    lemma_read_rows(es);
    assert(s.len() > 0);
    assert(read_records(s) == seq![header_fields()] + read_records(rows));
    if es.len() > 0 {
        lemma_csv_row_encoded(es.last());
        assert(rows.last() == csv_row(es.last()).last());
    }
}

/// Law: the history never holds more than `MAX_ENTRIES` entries, the entry
/// just added is the newest, and nothing is dropped while there is room.
pub proof fn lemma_history_bounded(entries: Seq<HistoryEntry>, entry: HistoryEntry)
    ensures
        kept(entries.push(entry)).len() <= MAX_ENTRIES,
        kept(entries.push(entry)).last() == entry,
        entries.len() < MAX_ENTRIES ==> kept(entries.push(entry)) == entries.push(entry),
        entries.len() >= MAX_ENTRIES ==> kept(entries.push(entry)) == entries.subrange(
            entries.len() + 1 - MAX_ENTRIES,
            entries.len() as int,
        ).push(entry),
{
    let all = entries.push(entry);
    if entries.len() >= MAX_ENTRIES {
        assert(kept(all) =~= entries.subrange(
            entries.len() + 1 - MAX_ENTRIES,
            entries.len() as int,
        ).push(entry));
    }
}

} // verus!
