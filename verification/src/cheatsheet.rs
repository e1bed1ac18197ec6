//! The keyboard-shortcut cheat sheet: reading the `bindsym <key> exec
//! <command>` lines of a sway bindings file, grouping the bindings by what
//! their command does, and wording keys and commands for display.

use vstd::prelude::*;

use crate::seq_util::{insert_by, lemma_insert_by_at, lemma_sort_by, sort_by, strict_weak};
use crate::text::{
    lines_of, split_lines, string_seq, chars_before, chars_less, lemma_chars_before_order, chars_of, contains_chars, has_prefix, has_substring, is_white_space,
    is_whitespace, push_chars, push_str, slice_chars, starts_with_chars, string_of, to_lowercase, trim,
    trim_start_from, trim_start_ws, trim_ws, unicode_lower,
};

verus! {

broadcast use vstd::seq_lib::group_seq_properties;

/// The groups of the cheat sheet.
#[derive(Debug, Clone, Copy, PartialEq, Eq, Structural)]
pub enum Category {
    Navigation,
    Move,
    Clusters,
    Shell,
    System,
    Session,
    Other,
}

/// Position of a group on the sheet.
pub open spec fn group_order(c: Category) -> u8 {
    match c {
        Category::Navigation => 0,
        Category::Clusters => 1,
        Category::Move => 2,
        Category::Shell => 3,
        Category::System => 4,
        Category::Session => 5,
        Category::Other => 6,
    }
}

impl Category {
    /// The group's heading.
    pub fn label(self) -> (r: &'static str)
        ensures
            r@ == match self {
                Category::Navigation => "Navigation"@,
                Category::Move => "Move windows"@,
                Category::Clusters => "Clusters"@,
                Category::Shell => "Shell"@,
                Category::System => "System"@,
                Category::Session => "Session"@,
                Category::Other => "Other"@,
            },
    {
        match self {
            Category::Navigation => "Navigation",
            Category::Move => "Move windows",
            Category::Clusters => "Clusters",
            Category::Shell => "Shell",
            Category::System => "System",
            Category::Session => "Session",
            Category::Other => "Other",
        }
    }

    /// Display order of the groups.
    pub fn display_order(self) -> (r: u8)
        ensures
            r == group_order(self),
    {
        match self {
            Category::Navigation => 0,
            Category::Clusters => 1,
            Category::Move => 2,
            Category::Shell => 3,
            Category::System => 4,
            Category::Session => 5,
            Category::Other => 6,
        }
    }
}

/// One key binding of the sheet.
#[derive(Debug, Clone, PartialEq, Eq)]
pub struct Binding {
    pub key: String,
    pub command: String,
    pub category: Category,
}

/// Mathematical view of a binding.
pub struct BindingView {
    pub key: Seq<char>,
    pub command: Seq<char>,
    pub category: Category,
}

impl View for Binding {
    type V = BindingView;

    open spec fn view(&self) -> BindingView {
        BindingView { key: self.key@, command: self.command@, category: self.category }
    }
}

pub open spec fn binding_views(v: Seq<Binding>) -> Seq<BindingView> {
    v.map_values(|b: Binding| b@)
}

// ---------------------------------------------------------------------------
// Reading a binding line.
// ---------------------------------------------------------------------------

/// `s` without `p` in front, where it starts with `p`.
pub open spec fn strip_prefix(s: Seq<char>, p: Seq<char>) -> Option<Seq<char>> {
    if has_prefix(s, p) {
        Some(s.skip(p.len() as int))
    } else {
        None
    }
}

/// `s` split at its first whitespace character, which belongs to neither
/// part; `None` where it has none.
pub open spec fn split_at_white_space(s: Seq<char>) -> Option<(Seq<char>, Seq<char>)>
    decreases s.len(),
{
    if s.len() == 0 {
        None
    } else if is_white_space(s[0]) {
        Some((Seq::empty(), s.drop_first()))
    } else {
        match split_at_white_space(s.drop_first()) {
            Some(parts) => Some((seq![s[0]] + parts.0, parts.1)),
            None => None,
        }
    }
}

/// The key and command of a line `bindsym <key> exec <command>`, with the
/// whitespace around the parts dropped; `None` for any other line, and
/// where the key or the command is empty.
pub open spec fn binding_line(line: Seq<char>) -> Option<(Seq<char>, Seq<char>)> {
    match strip_prefix(trim_ws(line), "bindsym"@) {
        None => None,
        Some(after) => match split_at_white_space(trim_start_ws(after)) {
            None => None,
            Some(parts) => match strip_prefix(trim_start_ws(parts.1), "exec"@) {
                None => None,
                Some(c) => {
                    let command = trim_start_ws(c);
                    if parts.0.len() == 0 || command.len() == 0 {
                        None
                    } else {
                        Some((parts.0, command))
                    }
                },
            },
        },
    }
}

proof fn lemma_split_at_white_space(s: Seq<char>, j: int)
    requires
        0 <= j <= s.len(),
        forall|k: int| 0 <= k < j ==> !is_white_space(#[trigger] s[k]),
        j == s.len() || is_white_space(s[j]),
    ensures
        split_at_white_space(s) == if j == s.len() {
            None
        } else {
            Some((s.take(j), s.skip(j + 1)))
        },
    decreases j,
{
    if j == 0 {
        if s.len() > 0 {
            assert(s.take(0) =~= Seq::<char>::empty());
            assert(s.skip(1) =~= s.drop_first());
        }
    } else {
        let d = s.drop_first();
        assert forall|k: int| 0 <= k < j - 1 implies !is_white_space(#[trigger] d[k]) by {
            assert(d[k] == s[k + 1]);
        }
        if j < s.len() {
            assert(d[j - 1] == s[j]);
        }
        lemma_split_at_white_space(d, j - 1);
        assert(!is_white_space(s[0]));
        if j < s.len() {
            assert(seq![s[0]] + d.take(j - 1) =~= s.take(j));
            assert(d.skip(j) =~= s.skip(j + 1));
        }
    }
}

/// The key and command of a `bindsym <key> exec <command>` line.
pub fn parse_binding_line(line: &str) -> (r: Option<(String, String)>)
    ensures
        match r {
            Some(p) => binding_line(line@) == Some((p.0@, p.1@)),
            None => binding_line(line@) is None,
        },
{
    let t = chars_of(trim(line).as_str());
    let bindsym = chars_of("bindsym");
    if !starts_with_chars(&t, &bindsym) {
        return None;
    }
    let after = trim_start_from(&t, bindsym.len());
    let mut j: usize = 0;
    while j < after.len() && !is_whitespace(after[j])
        invariant
            j <= after@.len(),
            forall|k: int| 0 <= k < j ==> !is_white_space(#[trigger] after@[k]),
        decreases after.len() - j,
    {
        j += 1;
    }
    proof {
        lemma_split_at_white_space(after@, j as int);
    }
    if j == after.len() {
        return None;
    }
    let key = slice_chars(&after, 0, j);
    let rest = trim_start_from(&after, j + 1);
    let exec = chars_of("exec");
    if !starts_with_chars(&rest, &exec) {
        return None;
    }
    let command = trim_start_from(&rest, exec.len());
    if key.len() == 0 || command.len() == 0 {
        return None;
    }
    Some((string_of(&key), string_of(&command)))
}

proof fn lemma_split_key_has_no_white_space(s: Seq<char>)
    ensures
        split_at_white_space(s) matches Some(parts) ==> forall|i: int|
            0 <= i < parts.0.len() ==> !is_white_space(#[trigger] parts.0[i]),
    decreases s.len(),
{
    if s.len() > 0 && !is_white_space(s[0]) {
        lemma_split_key_has_no_white_space(s.drop_first());
        if let Some(parts) = split_at_white_space(s.drop_first()) {
            let k = seq![s[0]] + parts.0;
            assert forall|i: int| 0 <= i < k.len() implies !is_white_space(#[trigger] k[i]) by {
                if i > 0 {
                    assert(k[i] == parts.0[i - 1]);
                }
            }
        }
    }
}

proof fn lemma_trim_start_leads_with_non_white_space(s: Seq<char>)
    ensures
        trim_start_ws(s).len() > 0 ==> !is_white_space(trim_start_ws(s)[0]),
    decreases s.len(),
{
    if s.len() > 0 && is_white_space(s[0]) {
        lemma_trim_start_leads_with_non_white_space(s.drop_first());
    }
}

/// A binding read from a line has a one-word key (nonempty, without
/// whitespace) and a nonempty command that does not start with whitespace.
pub proof fn law_binding_key_is_one_word(line: Seq<char>)
    ensures
        binding_line(line) matches Some(p) ==> {
            &&& p.0.len() > 0
            &&& forall|i: int| 0 <= i < p.0.len() ==> !is_white_space(#[trigger] p.0[i])
            &&& p.1.len() > 0
            &&& !is_white_space(p.1[0])
        },
{
    if let Some(after) = strip_prefix(trim_ws(line), "bindsym"@) {
        lemma_split_key_has_no_white_space(trim_start_ws(after));
        if let Some(parts) = split_at_white_space(trim_start_ws(after)) {
            if let Some(c) = strip_prefix(trim_start_ws(parts.1), "exec"@) {
                lemma_trim_start_leads_with_non_white_space(c);
            }
        }
    }
}

// ---------------------------------------------------------------------------
// Grouping.
// ---------------------------------------------------------------------------

/// The group of a command, from its lowercase form: the first rule that
/// matches decides.
pub open spec fn category_of_lowered(lower: Seq<char>) -> Category {
    if has_substring(lower, "zoom-"@) || has_substring(lower, "cycle-"@) {
        Category::Navigation
    } else if has_substring(lower, "keyboard-move"@) {
        Category::Move
    } else if has_substring(lower, "cluster"@) {
        Category::Clusters
    } else if has_substring(lower, "com.vibeshell.launcher"@) || has_substring(lower, " launcher"@) {
        Category::Shell
    } else if has_substring(lower, "wpctl"@) || has_substring(lower, "brightnessctl"@) || has_substring(
        lower,
        "grim"@,
    ) || has_substring(lower, "wl-copy"@) {
        Category::System
    } else if has_substring(lower, "swaymsg exit"@) || has_substring(lower, "swaymsg reload"@) {
        Category::Session
    } else {
        Category::Other
    }
}

/// The group of a command.
pub open spec fn category_of(command: Seq<char>) -> Category {
    category_of_lowered(unicode_lower(command))
}

fn mentions(hay: &Vec<char>, needle: &str) -> (r: bool)
    ensures
        r == has_substring(hay@, needle@),
{
    contains_chars(hay, &chars_of(needle))
}

/// The group of a command, given the command in lowercase.
pub fn categorize_lowered(lower: &str) -> (r: Category)
    ensures
        r == category_of_lowered(lower@),
{
    let l = chars_of(lower);
    if mentions(&l, "zoom-") || mentions(&l, "cycle-") {
        Category::Navigation
    } else if mentions(&l, "keyboard-move") {
        Category::Move
    } else if mentions(&l, "cluster") {
        Category::Clusters
    } else if mentions(&l, "com.vibeshell.launcher") || mentions(&l, " launcher") {
        Category::Shell
    } else if mentions(&l, "wpctl") || mentions(&l, "brightnessctl") || mentions(&l, "grim") || mentions(
        &l,
        "wl-copy",
    ) {
        Category::System
    } else if mentions(&l, "swaymsg exit") || mentions(&l, "swaymsg reload") {
        Category::Session
    } else {
        Category::Other
    }
}

/// The group of a command, by what it mentions.
pub fn categorize(command: &str) -> (r: Category)
    ensures
        r == category_of(command@),
{
    let lower = to_lowercase(command);
    categorize_lowered(lower.as_str())
}

// ---------------------------------------------------------------------------
// Reading a whole file.
// ---------------------------------------------------------------------------

/// The bindings of `lines`, in order, each with the group of its command.
pub open spec fn bindings_in(lines: Seq<Seq<char>>) -> Seq<BindingView>
    decreases lines.len(),
{
    if lines.len() == 0 {
        Seq::empty()
    } else {
        let rest = bindings_in(lines.drop_last());
        match binding_line(lines.last()) {
            Some(p) => rest.push(BindingView { key: p.0, command: p.1, category: category_of(p.1) }),
            None => rest,
        }
    }
}

/// Every `bindsym <key> exec <command>` binding of `contents`, in file
/// order; other lines are skipped.
pub fn parse_bindings(contents: &str) -> (r: Vec<Binding>)
    ensures
        binding_views(r@) == bindings_in(lines_of(contents@)),
{
    let lines = split_lines(contents);
    let ghost ls = string_seq(lines@);
    let mut out: Vec<Binding> = Vec::new();
    let mut i: usize = 0;
    while i < lines.len()
        invariant
            i <= lines@.len(),
            ls == string_seq(lines@),
            ls == lines_of(contents@),
            binding_views(out@) == bindings_in(ls.take(i as int)),
        decreases lines.len() - i,
    {
        assert(ls.take(i as int + 1).drop_last() =~= ls.take(i as int));
        assert(ls.take(i as int + 1).last() == lines@[i as int]@);
        let ghost before = binding_views(out@);
        match parse_binding_line(lines[i].as_str()) {
            Some(p) => {
                let (key, command) = p;
                let category = categorize(command.as_str());
                out.push(Binding { key, command, category });
                assert(binding_views(out@) =~= before.push(out@[out@.len() - 1]@));
            },
            None => {},
        }
        i += 1;
    }
    assert(ls.take(lines@.len() as int) =~= ls);
    out
}

/// Groups in display order; within a group, keys in code-point order.
pub open spec fn by_group_then_key() -> spec_fn(BindingView, BindingView) -> bool {
    |a: BindingView, b: BindingView|
        group_order(a.category) < group_order(b.category) || (group_order(a.category) == group_order(
            b.category,
        ) && chars_before(a.key, b.key))
}

fn binding_before(a: &Binding, b: &Binding) -> (r: bool)
    ensures
        r == (by_group_then_key())(a@, b@),
{
    let oa = a.category.display_order();
    let ob = b.category.display_order();
    oa < ob || (oa == ob && chars_less(&chars_of(a.key.as_str()), &chars_of(b.key.as_str())))
}

/// Sorts the bindings into the sheet's order, keeping the file order of
/// bindings that tie.
pub fn sort_bindings(bindings: Vec<Binding>) -> (r: Vec<Binding>)
    ensures
        binding_views(r@) == sort_by(binding_views(bindings@), by_group_then_key()),
{
    let ghost orig = binding_views(bindings@);
    let mut rest = bindings;
    let mut r: Vec<Binding> = Vec::new();
    let mut i: usize = 0;
    let n = rest.len();
    while rest.len() > 0
        invariant
            n == orig.len(),
            i + rest@.len() == n,
            binding_views(rest@) == orig.skip(i as int),
            binding_views(r@) == sort_by(orig.take(i as int), by_group_then_key()),
        decreases rest.len(),
    {
        let x = rest.remove(0);
        assert(x@ == orig[i as int]);
        let ghost xs = orig.take(i as int + 1);
        assert(xs.drop_last() =~= orig.take(i as int));
        assert(xs.last() == x@);
        let mut pos: usize = r.len();
        while pos > 0 && binding_before(&x, &r[pos - 1])
            invariant
                pos <= r@.len(),
                forall|k: int| pos <= k < r@.len() ==> (by_group_then_key())(x@, #[trigger] binding_views(r@)[k]),
            decreases pos,
        {
            assert(binding_views(r@)[pos - 1] == r@[pos - 1]@);
            pos -= 1;
        }
        proof {
            if pos > 0 {
                assert(binding_views(r@)[pos - 1] == r@[pos - 1]@);
            }
            lemma_insert_by_at(binding_views(r@), x@, by_group_then_key(), pos as int);
        }
        let ghost before = binding_views(r@);
        r.insert(pos, x);
        assert(binding_views(r@) =~= before.take(pos as int) + seq![x@] + before.skip(pos as int));
        i += 1;
        assert(binding_views(rest@) =~= orig.skip(i as int));
    }
    assert(orig.take(i as int) =~= orig);
    r
}

// ---------------------------------------------------------------------------
// Wording.
// ---------------------------------------------------------------------------

/// `s` with each occurrence of `pat` (nonempty), taken left to right
/// without overlap, replaced by `with`.
pub open spec fn replace_all(s: Seq<char>, pat: Seq<char>, with: Seq<char>) -> Seq<char>
    decreases s.len(),
{
    if s.len() == 0 {
        s
    } else if pat.len() > 0 && has_prefix(s, pat) {
        with + replace_all(s.skip(pat.len() as int), pat, with)
    } else {
        seq![s[0]] + replace_all(s.drop_first(), pat, with)
    }
}

fn starts_with_at(v: &Vec<char>, i: usize, p: &Vec<char>) -> (r: bool)
    requires
        i <= v@.len(),
    ensures
        r == has_prefix(v@.skip(i as int), p@),
{
    let ghost t = v@.skip(i as int);
    let vl = v.len();
    if p.len() > vl - i {
        return false;
    }
    let mut k: usize = 0;
    while k < p.len()
        invariant
            vl == v@.len(),
            i <= v@.len(),
            i + p@.len() <= v@.len(),
            t == v@.skip(i as int),
            k <= p@.len(),
            forall|q: int| 0 <= q < k ==> t[q] == p@[q],
        decreases p.len() - k,
    {
        if v[i + k] != p[k] {
            assert(t.take(p@.len() as int)[k as int] != p@[k as int]);
            return false;
        }
        k += 1;
    }
    assert(t.take(p@.len() as int) =~= p@);
    true
}

/// Makes `$mod+Shift+Up` friendlier: `$mod` reads `Super`.
pub fn humanize_key(key: &str) -> (r: String)
    ensures
        r@ == replace_all(key@, "$mod"@, "Super"@),
{
    let cs = chars_of(key);
    let pat = chars_of("$mod");
    let with = chars_of("Super");
    let n = cs.len();
    let mut out = String::new();
    let mut i: usize = 0;
    while i < n
        invariant
            n == cs@.len(),
            cs@ == key@,
            pat@ == "$mod"@,
            with@ == "Super"@,
            i <= n,
            replace_all(cs@, pat@, with@) == out@ + replace_all(cs@.skip(i as int), pat@, with@),
        decreases n - i,
    {
        let ghost rest = cs@.skip(i as int);
        let ghost before = out@;
        if pat.len() > 0 && starts_with_at(&cs, i, &pat) {
            push_chars(&mut out, &with);
            assert(rest.skip(pat@.len() as int) =~= cs@.skip(i + pat@.len()));
            assert(before + (with@ + replace_all(rest.skip(pat@.len() as int), pat@, with@)) =~= out@
                + replace_all(cs@.skip(i + pat@.len()), pat@, with@));
            i += pat.len();
        } else {
            assert(rest[0] == cs@[i as int]);
            assert(rest.drop_first() =~= cs@.skip(i as int + 1));
            crate::text::push_char(&mut out, cs[i]);
            assert(before + (seq![cs@[i as int]] + replace_all(rest.drop_first(), pat@, with@)) =~= out@
                + replace_all(cs@.skip(i as int + 1), pat@, with@));
            i += 1;
        }
    }
    assert(cs@.skip(n as int).len() == 0);
    assert(out@ + cs@.skip(n as int) =~= out@);
    out
}

/// `s` with each `-` turned into a space.
pub open spec fn dashes_to_spaces(s: Seq<char>) -> Seq<char> {
    s.map_values(|c: char| if c == '-' { ' ' } else { c })
}

/// A description of a binding's command: `vibeshellctl ipc <thing>`
/// reads `vibeshell: <thing>` with dashes as spaces, `swaymsg <rest>`
/// reads `sway: <rest>`, anything else is shown as it is.
pub open spec fn description(c: Seq<char>) -> Seq<char> {
    if has_prefix(c, "vibeshellctl ipc "@) {
        "vibeshell: "@ + dashes_to_spaces(c.skip("vibeshellctl ipc "@.len() as int))
    } else if has_prefix(c, "swaymsg "@) {
        "sway: "@ + c.skip("swaymsg "@.len() as int)
    } else {
        c
    }
}

/// Best-effort description of a binding's command.
pub fn describe_command(command: &str) -> (r: String)
    ensures
        r@ == description(command@),
{
    let cs = chars_of(command);
    let ipc = chars_of("vibeshellctl ipc ");
    if starts_with_chars(&cs, &ipc) {
        let mut out = String::new();
        push_str(&mut out, "vibeshell: ");
        let ghost start = out@;
        let mut i: usize = ipc.len();
        while i < cs.len()
            invariant
                ipc@.len() <= i <= cs@.len(),
                out@ == start + dashes_to_spaces(cs@.subrange(ipc@.len() as int, i as int)),
            decreases cs.len() - i,
        {
            let c = if cs[i] == '-' {
                ' '
            } else {
                cs[i]
            };
            crate::text::push_char(&mut out, c);
            i += 1;
            assert(out@ =~= start + dashes_to_spaces(cs@.subrange(ipc@.len() as int, i as int)));
        }
        assert(cs@.subrange(ipc@.len() as int, cs@.len() as int) =~= cs@.skip(ipc@.len() as int));
        return out;
    }
    let sway = chars_of("swaymsg ");
    if starts_with_chars(&cs, &sway) {
        let mut out = String::new();
        push_str(&mut out, "sway: ");
        let tail = slice_chars(&cs, sway.len(), cs.len());
        push_chars(&mut out, &tail);
        assert(tail@ =~= cs@.skip(sway@.len() as int));
        return out;
    }
    string_of(&cs)
}


/// The cheatsheet lists bindings section by section in display order, and
/// within a section by key in code-point order; it lists each binding it
/// was given, no other.
pub proof fn law_bindings_grouped(bs: Seq<BindingView>)
    ensures
        ({
            let sorted = sort_by(bs, by_group_then_key());
            &&& sorted.to_multiset() == bs.to_multiset()
            &&& forall|i: int, j: int|
                0 <= i < j < sorted.len() ==> group_order(#[trigger] sorted[i].category) < group_order(
                    #[trigger] sorted[j].category,
                ) || (group_order(sorted[i].category) == group_order(sorted[j].category) && !chars_before(
                    sorted[j].key,
                    sorted[i].key,
                ))
        }),
{
    assert forall|a: BindingView, b: BindingView, c: BindingView|
        #![trigger (by_group_then_key())(a, b), (by_group_then_key())(b, c)]
        !(by_group_then_key())(a, b) && !(by_group_then_key())(b, c) implies !(by_group_then_key())(a, c) by {
        lemma_chars_before_order(a.key, b.key, c.key);
    }
    assert forall|a: BindingView, b: BindingView| #[trigger] (by_group_then_key())(a, b) implies !(by_group_then_key())(
        b,
        a,
    ) by {
        lemma_chars_before_order(a.key, b.key, a.key);
    }
    assert(strict_weak(by_group_then_key()));
    lemma_sort_by(bs, by_group_then_key());
    let sorted = sort_by(bs, by_group_then_key());
    assert forall|i: int, j: int| 0 <= i < j < sorted.len() implies group_order(#[trigger] sorted[i].category)
        < group_order(#[trigger] sorted[j].category) || (group_order(sorted[i].category) == group_order(
        sorted[j].category,
    ) && !chars_before(sorted[j].key, sorted[i].key)) by {
        assert(!(by_group_then_key())(sorted[j], sorted[i]));
    }
}


/// A line of the cheat sheet: a section heading, or a binding's key and
/// what it does.
#[derive(Debug, Clone, PartialEq, Eq)]
pub enum CheatsheetRow {
    Header(Category),
    Entry { key: String, description: String },
}

pub enum RowView {
    Header(Category),
    Entry { key: Seq<char>, description: Seq<char> },
}

impl View for CheatsheetRow {
    type V = RowView;

    open spec fn view(&self) -> RowView {
        match self {
            CheatsheetRow::Header(c) => RowView::Header(*c),
            CheatsheetRow::Entry { key, description } => RowView::Entry { key: key@, description: description@ },
        }
    }
}

pub open spec fn row_views(rs: Seq<CheatsheetRow>) -> Seq<RowView> {
    rs.map_values(|r: CheatsheetRow| r@)
}

/// The sheet for `bs`: a heading wherever the section changes (and before
/// the first binding), then each binding with its key spelled out and its
/// command described.
pub open spec fn sheet_rows(bs: Seq<BindingView>) -> Seq<RowView>
    decreases bs.len(),
{
    if bs.len() == 0 {
        Seq::empty()
    } else {
        let b = bs.last();
        let head = if bs.len() == 1 || bs[bs.len() - 2].category != b.category {
            seq![RowView::Header(b.category)]
        } else {
            Seq::empty()
        };
        sheet_rows(bs.drop_last()) + head + seq![
            RowView::Entry { key: replace_all(b.key, "$mod"@, "Super"@), description: description(b.command) },
        ]
    }
}

/// The lines of the cheat sheet for `bindings`, in order.
pub fn cheatsheet_rows(bindings: &[Binding]) -> (r: Vec<CheatsheetRow>)
    ensures
        row_views(r@) == sheet_rows(bindings@.map_values(|b: Binding| b@)),
{
    let ghost bs = bindings@.map_values(|b: Binding| b@);
    let mut out: Vec<CheatsheetRow> = Vec::new();
    let mut current: Option<Category> = None;
    let mut i: usize = 0;
    while i < bindings.len()
        invariant
            i <= bindings@.len(),
            bs == bindings@.map_values(|b: Binding| b@),
            row_views(out@) == sheet_rows(bs.take(i as int)),
            current == (if i == 0 {
                None
            } else {
                Some(bs[i - 1].category)
            }),
        decreases bindings.len() - i,
    {
        let b = &bindings[i];
        let ghost pre = bs.take(i as int + 1);
        assert(pre.drop_last() =~= bs.take(i as int));
        assert(pre.last() == b@);
        if i > 0 {
            assert(pre[pre.len() - 2] == bs[i - 1]);
        }
        let new_section = match current {
            Some(c) => c != b.category,
            None => true,
        };
        let ghost before = row_views(out@);
        if new_section {
            out.push(CheatsheetRow::Header(b.category));
        }
        let entry = CheatsheetRow::Entry { key: humanize_key(b.key.as_str()), description: describe_command(b.command.as_str()) };
        out.push(entry);
        proof {
            let head = if pre.len() == 1 || pre[pre.len() - 2].category != b@.category {
                seq![RowView::Header(b@.category)]
            } else {
                Seq::<RowView>::empty()
            };
            assert(row_views(out@) =~= before + head + seq![entry@]);
        }
        current = Some(b.category);
        i += 1;
    }
    assert(bs.take(i as int) =~= bs);
    out
}

} // verus!
