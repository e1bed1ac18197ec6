//! Reading freedesktop `.desktop` files: the `[Desktop Entry]` group's
//! keys that the launcher uses, which entries are shown at all, and the
//! precedence between files that share a desktop id.

use vstd::prelude::*;

use crate::launcher::{DesktopEntry, DesktopView};
use crate::text::{
    chars_eq, chars_of, has_prefix, lines_of, lower_ascii, lowercase_chars, slice_chars, split_lines,
    starts_with_chars, string_of, string_seq, trim_chars, trim_ws,
};

verus! {

broadcast use vstd::seq_lib::group_seq_properties;

/// What has been read of a desktop file so far.
pub struct ScanState {
    /// Inside the `[Desktop Entry]` group.
    pub in_entry: bool,
    pub name: Option<Seq<char>>,
    pub exec_line: Option<Seq<char>>,
    pub icon: Option<Seq<char>>,
    pub keywords: Seq<Seq<char>>,
    pub terminal: bool,
    pub hidden: bool,
    pub no_display: bool,
    pub is_application: bool,
}

pub open spec fn scan_start() -> ScanState {
    ScanState {
        in_entry: false,
        name: None,
        exec_line: None,
        icon: None,
        keywords: Seq::empty(),
        terminal: false,
        hidden: false,
        no_display: false,
        is_application: false,
    }
}

/// `s` split at its first `c`, which belongs to neither part.
pub open spec fn split_at_char(s: Seq<char>, c: char) -> Option<(Seq<char>, Seq<char>)>
    decreases s.len(),
{
    if s.len() == 0 {
        None
    } else if s[0] == c {
        Some((Seq::empty(), s.drop_first()))
    } else {
        match split_at_char(s.drop_first(), c) {
            Some(parts) => Some((seq![s[0]] + parts.0, parts.1)),
            None => None,
        }
    }
}

/// The keyword of a segment: the segment trimmed, where anything is left.
pub open spec fn keyword_of(segment: Seq<char>) -> Seq<Seq<char>> {
    if trim_ws(segment).len() > 0 {
        seq![trim_ws(segment)]
    } else {
        Seq::empty()
    }
}

/// The keywords of a `;`-separated list after a partial segment `cur`.
pub open spec fn keywords_after(s: Seq<char>, cur: Seq<char>) -> Seq<Seq<char>>
    decreases s.len(),
{
    if s.len() == 0 {
        keyword_of(cur)
    } else if s[0] == ';' {
        keyword_of(cur) + keywords_after(s.drop_first(), Seq::empty())
    } else {
        keywords_after(s.drop_first(), cur.push(s[0]))
    }
}

/// The keywords of a `Keywords` value: its `;`-separated items, trimmed,
/// the empty ones left out.
pub open spec fn keywords_of(value: Seq<char>) -> Seq<Seq<char>> {
    keywords_after(value, Seq::empty())
}

/// `value` is `true` in any case.
pub open spec fn is_true(value: Seq<char>) -> bool {
    lower_ascii(value) == "true"@
}

/// The state after the entry `key=value` of the `[Desktop Entry]` group;
/// localized names and keywords, and unknown keys, change nothing.
pub open spec fn assign_key(st: ScanState, key: Seq<char>, value: Seq<char>) -> ScanState {
    if has_prefix(key, "Name["@) || has_prefix(key, "Keywords["@) {
        st
    } else if key == "Name"@ {
        ScanState { name: Some(value), ..st }
    } else if key == "Exec"@ {
        ScanState { exec_line: Some(value), ..st }
    } else if key == "Icon"@ {
        ScanState { icon: Some(value), ..st }
    } else if key == "Keywords"@ {
        ScanState { keywords: keywords_of(value), ..st }
    } else if key == "Terminal"@ {
        ScanState { terminal: is_true(value), ..st }
    } else if key == "Hidden"@ {
        ScanState { hidden: is_true(value), ..st }
    } else if key == "NoDisplay"@ {
        ScanState { no_display: is_true(value), ..st }
    } else if key == "Type"@ {
        ScanState { is_application: value == "Application"@, ..st }
    } else {
        st
    }
}

/// The state after one line: blank lines and comments change nothing, a
/// `[group]` header opens or closes the desktop entry group, and a
/// `key=value` line inside it is assigned with both sides trimmed.
pub open spec fn scan_line(st: ScanState, raw: Seq<char>) -> ScanState {
    let line = trim_ws(raw);
    if line.len() == 0 || line[0] == '#' {
        st
    } else if line[0] == '[' && line.last() == ']' {
        ScanState { in_entry: line == "[Desktop Entry]"@, ..st }
    } else if !st.in_entry {
        st
    } else {
        match split_at_char(line, '=') {
            None => st,
            Some(parts) => assign_key(st, trim_ws(parts.0), trim_ws(parts.1)),
        }
    }
}

/// The state after all of `lines`.
pub open spec fn scan_lines(lines: Seq<Seq<char>>) -> ScanState
    decreases lines.len(),
{
    if lines.len() == 0 {
        scan_start()
    } else {
        scan_line(scan_lines(lines.drop_last()), lines.last())
    }
}

/// What a desktop file with `content` describes: an application to list,
/// with the given `id` and `path`, unless it is hidden, not to be
/// displayed, not an application, or lacks a name or a command.
pub open spec fn entry_of(content: Seq<char>, id: Seq<char>, path: Seq<char>) -> Option<
    (Seq<char>, Seq<char>, Seq<char>, Seq<char>, Option<Seq<char>>, Seq<Seq<char>>, bool),
> {
    let st = scan_lines(lines_of(content));
    if st.hidden || st.no_display || !st.is_application {
        None
    } else {
        match (st.name, st.exec_line) {
            (Some(name), Some(exec_line)) => Some(
                (id, path, name, exec_line, st.icon, st.keywords, st.terminal),
            ),
            _ => None,
        }
    }
}

/// The parts of an entry in the order `entry_of` lists them.
pub open spec fn entry_parts(e: DesktopView) -> (
    Seq<char>,
    Seq<char>,
    Seq<char>,
    Seq<char>,
    Option<Seq<char>>,
    Seq<Seq<char>>,
    bool,
) {
    (e.id, e.path, e.name, e.exec_line, e.icon, string_seq(e.keywords), e.terminal)
}

struct Scanner {
    in_entry: bool,
    name: Option<String>,
    exec_line: Option<String>,
    icon: Option<String>,
    keywords: Vec<String>,
    terminal: bool,
    hidden: bool,
    no_display: bool,
    is_application: bool,
}

spec fn opt_view(o: Option<String>) -> Option<Seq<char>> {
    match o {
        Some(s) => Some(s@),
        None => None,
    }
}

impl View for Scanner {
    type V = ScanState;

    closed spec fn view(&self) -> ScanState {
        ScanState {
            in_entry: self.in_entry,
            name: opt_view(self.name),
            exec_line: opt_view(self.exec_line),
            icon: opt_view(self.icon),
            keywords: string_seq(self.keywords@),
            terminal: self.terminal,
            hidden: self.hidden,
            no_display: self.no_display,
            is_application: self.is_application,
        }
    }
}

proof fn lemma_split_at_char(s: Seq<char>, c: char, j: int)
    requires
        0 <= j <= s.len(),
        forall|k: int| 0 <= k < j ==> #[trigger] s[k] != c,
        j == s.len() || s[j] == c,
    ensures
        split_at_char(s, c) == if j == s.len() {
            None
        } else {
            Some((s.take(j), s.skip(j + 1)))
        },
    decreases j,
{
    if j == 0 {
        if s.len() > 0 {
            assert(s.take(0) =~= Seq::<char>::empty());
            assert(s.skip(1) =~= s.drop_first());
        }
    } else {
        let d = s.drop_first();
        assert forall|k: int| 0 <= k < j - 1 implies #[trigger] d[k] != c by {
            assert(d[k] == s[k + 1]);
        }
        if j < s.len() {
            assert(d[j - 1] == s[j]);
        }
        lemma_split_at_char(d, c, j - 1);
        assert(s[0] != c);
        if j < s.len() {
            assert(seq![s[0]] + d.take(j - 1) =~= s.take(j));
            assert(d.skip(j) =~= s.skip(j + 1));
        }
    }
}

/// The keywords of a `Keywords` value.
fn read_keywords(value: &Vec<char>) -> (r: Vec<String>)
    ensures
        string_seq(r@) == keywords_of(value@),
{
    let n = value.len();
    let mut out: Vec<String> = Vec::new();
    let mut cur: Vec<char> = Vec::new();
    let mut i: usize = 0;
    while i < n
        invariant
            n == value@.len(),
            i <= n,
            keywords_of(value@) == string_seq(out@) + keywords_after(value@.skip(i as int), cur@),
        decreases n - i,
    {
        let ghost rest = value@.skip(i as int);
        assert(rest[0] == value@[i as int]);
        assert(rest.drop_first() =~= value@.skip(i as int + 1));
        if value[i] == ';' {
            let ghost before = string_seq(out@);
            let t = trim_chars(&cur);
            if t.len() > 0 {
                out.push(string_of(&t));
                assert(string_seq(out@) =~= before + keyword_of(cur@));
            } else {
                assert(keyword_of(cur@) =~= Seq::<Seq<char>>::empty());
                assert(string_seq(out@) =~= before + keyword_of(cur@));
            }
            assert(before + (keyword_of(cur@) + keywords_after(value@.skip(i as int + 1), Seq::empty()))
                =~= string_seq(out@) + keywords_after(value@.skip(i as int + 1), Seq::empty()));
            cur = Vec::new();
            assert(cur@ =~= Seq::<char>::empty());
        } else {
            cur.push(value[i]);
        }
        i += 1;
    }
    assert(value@.skip(n as int).len() == 0);
    let ghost before = string_seq(out@);
    let t = trim_chars(&cur);
    if t.len() > 0 {
        out.push(string_of(&t));
        assert(string_seq(out@) =~= before + keyword_of(cur@));
    } else {
        assert(string_seq(out@) =~= before + keyword_of(cur@));
    }
    out
}

fn is_literal(v: &Vec<char>, text: &str) -> (r: bool)
    ensures
        r == (v@ == text@),
{
    chars_eq(v, &chars_of(text))
}

fn is_true_exec(value: &Vec<char>) -> (r: bool)
    ensures
        r == is_true(value@),
{
    let lowered = lowercase_chars(string_of(value).as_str());
    is_literal(&lowered, "true")
}

impl Scanner {
    fn assign(&mut self, key: &Vec<char>, value: &Vec<char>)
        ensures
            final(self)@ == assign_key(old(self)@, key@, value@),
    {
        if starts_with_chars(key, &chars_of("Name[")) || starts_with_chars(key, &chars_of("Keywords[")) {
            return;
        }
        if is_literal(key, "Name") {
            self.name = Some(string_of(value));
        } else if is_literal(key, "Exec") {
            self.exec_line = Some(string_of(value));
        } else if is_literal(key, "Icon") {
            self.icon = Some(string_of(value));
        } else if is_literal(key, "Keywords") {
            self.keywords = read_keywords(value);
        } else if is_literal(key, "Terminal") {
            self.terminal = is_true_exec(value);
        } else if is_literal(key, "Hidden") {
            self.hidden = is_true_exec(value);
        } else if is_literal(key, "NoDisplay") {
            self.no_display = is_true_exec(value);
        } else if is_literal(key, "Type") {
            self.is_application = is_literal(value, "Application");
        }
    }

    fn scan(&mut self, raw: &str)
        ensures
            final(self)@ == scan_line(old(self)@, raw@),
    {
        let line = trim_chars(&chars_of(raw));
        let n = line.len();
        if n == 0 || line[0] == '#' {
            return;
        }
        if line[0] == '[' && line[n - 1] == ']' {
            self.in_entry = is_literal(&line, "[Desktop Entry]");
            return;
        }
        if !self.in_entry {
            return;
        }
        let mut j: usize = 0;
        while j < n && line[j] != '='
            invariant
                n == line@.len(),
                j <= n,
                forall|k: int| 0 <= k < j ==> #[trigger] line@[k] != '=',
            decreases n - j,
        {
            j += 1;
        }
        proof {
            lemma_split_at_char(line@, '=', j as int);
        }
        if j == n {
            return;
        }
        let key = trim_chars(&slice_chars(&line, 0, j));
        let value = trim_chars(&slice_chars(&line, j + 1, n));
        assert(line@.subrange(0, j as int) =~= line@.take(j as int));
        assert(line@.subrange(j + 1, n as int) =~= line@.skip(j + 1));
        self.assign(&key, &value);
    }
}

/// The application a desktop file with `content` describes, given its
/// desktop `id` and `path`; `None` where it is not to be listed.
pub fn parse_desktop_entry(content: &str, id: String, path: String) -> (r: Option<DesktopEntry>)
    ensures
        match r {
            Some(e) => entry_of(content@, id@, path@) == Some(entry_parts(e@)),
            None => entry_of(content@, id@, path@) is None,
        },
{
    let lines = split_lines(content);
    let ghost ls = string_seq(lines@);
    let mut st = Scanner {
        in_entry: false,
        name: None,
        exec_line: None,
        icon: None,
        keywords: Vec::new(),
        terminal: false,
        hidden: false,
        no_display: false,
        is_application: false,
    };
    assert(st@ =~= scan_start()) by {
        assert(string_seq(st.keywords@) =~= Seq::<Seq<char>>::empty());
    }
    let mut i: usize = 0;
    while i < lines.len()
        invariant
            i <= lines@.len(),
            ls == string_seq(lines@),
            ls == lines_of(content@),
            st@ == scan_lines(ls.take(i as int)),
        decreases lines.len() - i,
    {
        assert(ls.take(i as int + 1).drop_last() =~= ls.take(i as int));
        assert(ls.take(i as int + 1).last() == lines@[i as int]@);
        st.scan(lines[i].as_str());
        i += 1;
    }
    assert(ls.take(lines@.len() as int) =~= ls);
    if st.hidden || st.no_display || !st.is_application {
        return None;
    }
    match (st.name, st.exec_line) {
        (Some(name), Some(exec_line)) => Some(
            DesktopEntry {
                id,
                path,
                name,
                exec_line,
                icon: st.icon,
                keywords: st.keywords,
                terminal: st.terminal,
            },
        ),
        _ => None,
    }
}

/// The ids of `entries`, in order.
pub open spec fn entry_ids(entries: Seq<DesktopEntry>) -> Seq<Seq<char>> {
    entries.map_values(|e: DesktopEntry| e.id@)
}

/// The entries of `entries` whose id no earlier entry has, in order: an
/// application found first in the search path wins.
pub open spec fn first_of_each_id_spec(entries: Seq<DesktopEntry>) -> Seq<DesktopEntry>
    decreases entries.len(),
{
    if entries.len() == 0 {
        Seq::empty()
    } else {
        let kept = first_of_each_id_spec(entries.drop_last());
        if entry_ids(kept).contains(entries.last().id@) {
            kept
        } else {
            kept.push(entries.last())
        }
    }
}

fn has_id(kept: &Vec<DesktopEntry>, id: &Vec<char>) -> (r: bool)
    ensures
        r == entry_ids(kept@).contains(id@),
{
    let mut k: usize = 0;
    while k < kept.len()
        invariant
            k <= kept@.len(),
            forall|j: int| 0 <= j < k ==> (#[trigger] kept@[j]).id@ != id@,
        decreases kept.len() - k,
    {
        if chars_eq(&chars_of(kept[k].id.as_str()), id) {
            assert(entry_ids(kept@)[k as int] == id@);
            return true;
        }
        k += 1;
    }
    assert forall|j: int| 0 <= j < entry_ids(kept@).len() implies entry_ids(kept@)[j] != id@ by {
        assert(entry_ids(kept@)[j] == kept@[j].id@);
    }
    false
}

/// Keeps, of the entries found along the search path, the first of each
/// desktop id.
pub fn first_of_each_id(entries: Vec<DesktopEntry>) -> (r: Vec<DesktopEntry>)
    ensures
        r@ == first_of_each_id_spec(entries@),
{
    let ghost all = entries@;
    let mut rest = entries;
    let mut kept: Vec<DesktopEntry> = Vec::new();
    let mut i: usize = 0;
    let n = rest.len();
    while rest.len() > 0
        invariant
            n == all.len(),
            i + rest@.len() == n,
            rest@ == all.skip(i as int),
            kept@ == first_of_each_id_spec(all.take(i as int)),
        decreases rest.len(),
    {
        let e = rest.remove(0);
        assert(e == all[i as int]);
        let ghost xs = all.take(i as int + 1);
        assert(xs.drop_last() =~= all.take(i as int));
        assert(xs.last() == e);
        if !has_id(&kept, &chars_of(e.id.as_str())) {
            kept.push(e);
        }
        i += 1;
        assert(rest@ =~= all.skip(i as int));
    }
    assert(all.take(i as int) =~= all);
    kept
}

/// Of the entries found along the search path, exactly one per desktop id
/// is kept, and it is one of the entries found: no id twice, and no id
/// lost.
pub proof fn law_one_entry_per_id(entries: Seq<DesktopEntry>)
    ensures
        entry_ids(first_of_each_id_spec(entries)).no_duplicates(),
        forall|i: int| 0 <= i < entries.len() ==> entry_ids(first_of_each_id_spec(entries)).contains(
            #[trigger] entries[i].id@,
        ),
        forall|j: int|
            0 <= j < first_of_each_id_spec(entries).len() ==> entries.contains(
                #[trigger] first_of_each_id_spec(entries)[j],
            ),
    decreases entries.len(),
{
    if entries.len() > 0 {
        let d = entries.drop_last();
        law_one_entry_per_id(d);
        let kept = first_of_each_id_spec(d);
        let e = entries.last();
        let r = first_of_each_id_spec(entries);
        assert forall|i: int| 0 <= i < entries.len() implies entry_ids(r).contains(#[trigger] entries[i].id@) by {
            if i < entries.len() - 1 {
                assert(d[i] == entries[i]);
                assert(entry_ids(kept).contains(d[i].id@));
                let k = choose|k: int| 0 <= k < entry_ids(kept).len() && entry_ids(kept)[k] == d[i].id@;
                if !entry_ids(kept).contains(e.id@) {
                    assert(entry_ids(r)[k] == entry_ids(kept)[k]);
                }
            } else {
                if !entry_ids(kept).contains(e.id@) {
                    assert(entry_ids(r)[kept.len() as int] == e.id@);
                }
            }
        }
        assert forall|j: int| 0 <= j < r.len() implies entries.contains(#[trigger] r[j]) by {
            if j < kept.len() {
                assert(r[j] == kept[j]);
                assert(d.contains(kept[j]));
                let k = choose|k: int| 0 <= k < d.len() && d[k] == kept[j];
                assert(entries[k] == d[k]);
            } else {
                assert(r[j] == e);
                assert(entries[entries.len() - 1] == e);
            }
        }
        if !entry_ids(kept).contains(e.id@) {
            assert(entry_ids(r) =~= entry_ids(kept).push(e.id@));
        }
    }
}

/// The directories of an `XDG_DATA_DIRS`-style list: its `:`-separated
/// items, the empty ones left out.
pub open spec fn data_dirs_after(s: Seq<char>, cur: Seq<char>) -> Seq<Seq<char>>
    decreases s.len(),
{
    if s.len() == 0 {
        if cur.len() > 0 {
            seq![cur]
        } else {
            Seq::empty()
        }
    } else if s[0] == ':' {
        (if cur.len() > 0 {
            seq![cur]
        } else {
            Seq::empty()
        }) + data_dirs_after(s.drop_first(), Seq::empty())
    } else {
        data_dirs_after(s.drop_first(), cur.push(s[0]))
    }
}

/// The nonempty `:`-separated items of `list`, in order.
pub fn split_data_dirs(list: &str) -> (r: Vec<String>)
    ensures
        string_seq(r@) == data_dirs_after(list@, Seq::empty()),
{
    let cs = chars_of(list);
    let n = cs.len();
    let mut out: Vec<String> = Vec::new();
    let mut cur: Vec<char> = Vec::new();
    let mut i: usize = 0;
    while i < n
        invariant
            n == cs@.len(),
            cs@ == list@,
            i <= n,
            data_dirs_after(list@, Seq::empty()) == string_seq(out@) + data_dirs_after(cs@.skip(i as int), cur@),
        decreases n - i,
    {
        let ghost rest = cs@.skip(i as int);
        assert(rest[0] == cs@[i as int]);
        assert(rest.drop_first() =~= cs@.skip(i as int + 1));
        if cs[i] == ':' {
            let ghost before = string_seq(out@);
            let ghost piece = if cur@.len() > 0 {
                seq![cur@]
            } else {
                Seq::<Seq<char>>::empty()
            };
            if cur.len() > 0 {
                out.push(string_of(&cur));
            }
            assert(string_seq(out@) =~= before + piece);
            assert(before + (piece + data_dirs_after(cs@.skip(i as int + 1), Seq::empty())) =~= string_seq(out@)
                + data_dirs_after(cs@.skip(i as int + 1), Seq::empty()));
            cur = Vec::new();
            assert(cur@ =~= Seq::<char>::empty());
        } else {
            cur.push(cs[i]);
        }
        i += 1;
    }
    assert(cs@.skip(n as int).len() == 0);
    let ghost before = string_seq(out@);
    if cur.len() > 0 {
        out.push(string_of(&cur));
        assert(string_seq(out@) =~= before + seq![cur@]);
    } else {
        assert(string_seq(out@) =~= before + Seq::<Seq<char>>::empty());
    }
    out
}

} // verus!
