//! What the window helpers decide about top-level windows: how a window is
//! named and titled, which windows a search selects, and which input
//! threads are attached to bring a window to the front.

use vstd::prelude::*;

verus! {

/// A top-level window: its handle (as an integer), the texts read from the
/// system about it, and the name of its executable, taken from the path
/// when the window is made.
#[derive(Debug)]
pub struct WindowInfo {
    hwnd: usize,
    title: String,
    exe_path: String,
    class_name: String,
    name: String,
}

/// The abstract value of a window.
pub struct WindowInfoView {
    pub hwnd: usize,
    pub title: Seq<char>,
    pub exe_path: Seq<char>,
    pub class_name: Seq<char>,
    pub name: Seq<char>,
}

impl View for WindowInfo {
    type V = WindowInfoView;

    closed spec fn view(&self) -> WindowInfoView {
        WindowInfoView {
            hwnd: self.hwnd,
            title: self.title@,
            exe_path: self.exe_path@,
            class_name: self.class_name@,
            name: self.name@,
        }
    }
}

impl WindowInfo {
    /// The executable name of a window is the name of its path.
    #[verifier::type_invariant]
    spec fn name_of_path(self) -> bool {
        is_window_name_of(self.exe_path@, self.name@)
    }
}

impl Clone for WindowInfo {
    fn clone(&self) -> (res: Self)
        ensures
            res@ == self@,
    {
        proof {
            use_type_invariant(self);
        }
        WindowInfo {
            hwnd: self.hwnd,
            title: self.title.clone(),
            exe_path: self.exe_path.clone(),
            class_name: self.class_name.clone(),
            name: self.name.clone(),
        }
    }
}

/// The Unicode lowercase form of a text, as `str::to_lowercase` computes it.
pub uninterp spec fn lowercase(s: Seq<char>) -> Seq<char>;

/// Whether every character of `s` is ASCII.
pub open spec fn is_ascii_text(s: Seq<char>) -> bool {
    forall|i: int| 0 <= i < s.len() ==> (#[trigger] s[i] as u32) < 128
}

/// The ASCII lowercase form of a character: `A`..`Z` become `a`..`z`.
pub open spec fn ascii_lower_char(c: char) -> char {
    if 'A' <= c && c <= 'Z' {
        ((c as u32) + 32) as char
    } else {
        c
    }
}

/// The ASCII lowercase form of a text.
pub open spec fn ascii_lowercase(s: Seq<char>) -> Seq<char> {
    s.map_values(|c: char| ascii_lower_char(c))
}

/// The Unicode lowercase form of `s`.
///
/// Trusted: calls `str::to_lowercase`. The contract names the result
/// (`lowercase`, a fixed function of the text) and states one fact of it:
/// on ASCII text it maps `A`..`Z` to `a`..`z` and keeps every other
/// character (the Unicode lowercase mapping of the ASCII range). What the
/// function does on other text is left unsaid.
#[verifier::external_body]
fn to_lowercase(s: &str) -> (res: String)
    ensures
        res@ == lowercase(s@),
        is_ascii_text(s@) ==> res@ == ascii_lowercase(s@),
{
    s.to_lowercase()
}

/// Whether `part` occurs as a contiguous piece of `s`.
pub open spec fn contains_seq(s: Seq<char>, part: Seq<char>) -> bool {
    exists|i: int| 0 <= i && i + part.len() <= s.len() && #[trigger] s.subrange(i, i + part.len()) == part
}

/// Whether `c` occurs in `s`.
pub open spec fn has_char(s: Seq<char>, c: char) -> bool {
    exists|i: int| 0 <= i < s.len() && s[i] == c
}

/// Whether every platform reads the components of `path` alike: it holds
/// no `\` and no `:` (so no drive, device or verbatim prefix) and does not
/// start with `//` (a network share on some platforms); `/` is then the
/// only separator.
pub open spec fn is_plain_path(path: Seq<char>) -> bool {
    &&& !has_char(path, '\\')
    &&& !has_char(path, ':')
    &&& !(path.len() >= 2 && path[0] == '/' && path[1] == '/')
}

/// Whether `path` starts with a drive, such as `C:`: an ASCII letter then `:`.
pub open spec fn is_drive_path(path: Seq<char>) -> bool {
    &&& path.len() >= 2
    &&& path[1] == ':'
    &&& (('A' <= path[0] && path[0] <= 'Z') || ('a' <= path[0] && path[0] <= 'z'))
}

/// Whether `c` separates components: `/` under the rules of every platform,
/// and `\` too under Windows rules (`backslash`).
pub open spec fn is_separator(c: char, backslash: bool) -> bool {
    c == '/' || (backslash && c == '\\')
}

/// The position just after the last separator of `p`, or 0 when there is none.
pub open spec fn last_component_start(p: Seq<char>, backslash: bool) -> int
    decreases p.len(),
{
    if p.len() == 0 {
        0
    } else if is_separator(p.last(), backslash) {
        p.len() as int
    } else {
        last_component_start(p.drop_last(), backslash)
    }
}

/// The last component starts inside the path, before its last character
/// when that is not a separator.
pub proof fn lemma_last_component_start(p: Seq<char>, backslash: bool)
    ensures
        0 <= last_component_start(p, backslash) <= p.len(),
        p.len() > 0 && !is_separator(p.last(), backslash) ==> last_component_start(p, backslash) < p.len(),
    decreases p.len(),
{
    if p.len() > 0 && !is_separator(p.last(), backslash) {
        lemma_last_component_start(p.drop_last(), backslash);
    }
}

/// The file name of a path with no prefix, split at the separators: its
/// last component, where trailing separators and `.` components are
/// skipped; none when that component is `..` or there is no component.
pub open spec fn file_name_of(p: Seq<char>, backslash: bool) -> Option<Seq<char>>
    decreases p.len(),
{
    if p.len() == 0 {
        None
    } else if is_separator(p.last(), backslash) {
        file_name_of(p.drop_last(), backslash)
    } else {
        let k = last_component_start(p, backslash);
        proof {
            lemma_last_component_start(p, backslash);
        }
        let name = p.subrange(k, p.len() as int);
        if name == seq!['.'] {
            file_name_of(p.subrange(0, k), backslash)
        } else if name == seq!['.', '.'] {
            None
        } else {
            Some(name)
        }
    }
}

/// The position of the last `.` of `n`, or -1 when there is none.
pub open spec fn last_dot(n: Seq<char>) -> int
    decreases n.len(),
{
    if n.len() == 0 {
        -1
    } else if n.last() == '.' {
        n.len() - 1
    } else {
        last_dot(n.drop_last())
    }
}

/// The stem of a file name: the part before its last `.`, or the whole
/// name when it has no `.` or its only `.` is the first character.
pub open spec fn stem_of_name(n: Seq<char>) -> Seq<char> {
    if last_dot(n) <= 0 {
        n
    } else {
        n.subrange(0, last_dot(n))
    }
}

/// The file stem of a path with no prefix, split at the separators.
pub open spec fn file_stem_of(p: Seq<char>, backslash: bool) -> Option<Seq<char>> {
    match file_name_of(p, backslash) {
        Some(n) => Some(stem_of_name(n)),
        None => None,
    }
}

/// The file stem of `path` under the rules where only `/` separates
/// components and no path has a prefix.
pub open spec fn slash_rule_stem(path: Seq<char>) -> Option<Seq<char>> {
    file_stem_of(path, false)
}

/// Whether `path` has no prefix under any platform's rules: it holds no
/// `:` and does not start with two separators.
pub open spec fn is_unprefixed_path(path: Seq<char>) -> bool {
    &&& !has_char(path, ':')
    &&& !(path.len() >= 2 && is_separator(path[0], true) && is_separator(path[1], true))
}

/// The position of the first separator (`/` or `\`) of `p` at or after `i`,
/// or the length of `p` when there is none.
pub open spec fn first_separator_from(p: Seq<char>, i: int) -> int
    decreases p.len() - i,
{
    if i < 0 || i >= p.len() {
        p.len() as int
    } else if is_separator(p[i], true) {
        i
    } else {
        first_separator_from(p, i + 1)
    }
}

/// Whether `path` names a file on a network share: `\\`, a server name,
/// a separator, a share name, where the server name does not start with
/// `?` or `.` (those start verbatim and device paths).
pub open spec fn is_unc_path(path: Seq<char>) -> bool {
    let server_end = first_separator_from(path, 2);
    &&& path.len() >= 3
    &&& path[0] == '\\' && path[1] == '\\'
    &&& !is_separator(path[2], true) && path[2] != '?' && path[2] != '.'
    &&& server_end + 1 < path.len()
    &&& !is_separator(path[server_end + 1], true)
}

/// What follows the server and share of a network path.
pub open spec fn unc_rest(path: Seq<char>) -> Seq<char> {
    let share_end = first_separator_from(path, first_separator_from(path, 2) + 1);
    if share_end < path.len() {
        path.subrange(share_end + 1, path.len() as int)
    } else {
        Seq::empty()
    }
}

/// Whether the Windows rules for `path` are known here: a drive path, a
/// network path, or a path with no prefix.
pub open spec fn has_known_windows_rules(path: Seq<char>) -> bool {
    is_drive_path(path) || is_unc_path(path) || is_unprefixed_path(path)
}

/// The file stem of `path` under Windows rules, where `/` and `\` both
/// separate: after the drive of a drive path, after the server and share
/// of a network path, and of the whole of a path with no prefix.
pub open spec fn windows_rule_stem(path: Seq<char>) -> Option<Seq<char>> {
    if is_drive_path(path) {
        file_stem_of(path.subrange(2, path.len() as int), true)
    } else if is_unc_path(path) {
        file_stem_of(unc_rest(path), true)
    } else {
        file_stem_of(path, true)
    }
}

/// The file stem of `path` (the file name without its final extension),
/// if the path has a file name.
///
/// Trusted: calls `std::path::Path::file_stem` (and converts the stem, a
/// piece of the text, back to text). Which prefixes and separators a path
/// has depends on the platform: under Windows rules `\` also separates and
/// drives and network shares are prefixes, elsewhere only `/` separates
/// and there are no prefixes. The contract states what holds on every
/// platform: a plain path (see `is_plain_path`) has its `/`-rule stem; a
/// drive path, a network path or a path with no prefix has its `/`-rule
/// stem or its Windows-rule stem; any stem is a non-empty piece of the
/// path. Of verbatim and device paths, and of paths that start with two
/// separators in other forms, nothing more is said.
#[verifier::external_body]
fn file_stem(path: &str) -> (res: Option<String>)
    ensures
        is_plain_path(path@) ==> stem_view(res) == slash_rule_stem(path@),
        has_known_windows_rules(path@) ==> (stem_view(res) == slash_rule_stem(path@) || stem_view(res)
            == windows_rule_stem(path@)),
        res matches Some(s) ==> contains_seq(path@, s@) && s@.len() > 0,
{
    // a piece of a `&str` path is valid text, so the conversion back keeps it whole
    match std::path::Path::new(path).file_stem() {
        Some(stem) => stem.to_str().map(String::from),
        None => None,
    }
}

/// The view of an optional text.
pub open spec fn stem_view(s: Option<String>) -> Option<Seq<char>> {
    match s {
        Some(s) => Some(s@),
        None => None,
    }
}

/// The text `s` with each space replaced by `-`.
pub open spec fn dashes_for_spaces(s: Seq<char>) -> Seq<char> {
    s.map_values(|c: char| if c == ' ' { '-' } else { c })
}

/// The executable name given by a stem: the stem, or `UNKNOWN` when there is none.
pub open spec fn name_from_stem(stem: Option<Seq<char>>) -> Seq<char> {
    match stem {
        Some(s) => s,
        None => "UNKNOWN"@,
    }
}

/// Whether `name` is the executable name of `path` (its file stem, or
/// `UNKNOWN` when it has none). Executable paths are Windows paths, so
/// wherever the Windows rules of the path are known (a drive path, a
/// network path or a path with no prefix) the name is its Windows-rule
/// name, on every platform; for a plain path that is also its `/`-rule
/// name; for any path the name is `UNKNOWN` or a non-empty piece of the
/// path.
pub open spec fn is_window_name_of(path: Seq<char>, name: Seq<char>) -> bool {
    &&& has_known_windows_rules(path) ==> name == name_from_stem(windows_rule_stem(path))
    &&& is_plain_path(path) ==> name == name_from_stem(slash_rule_stem(path))
    &&& (name == "UNKNOWN"@ || (contains_seq(path, name) && name.len() > 0))
}

/// A text without `c` has none in any piece of it.
proof fn lemma_no_char_in_piece(p: Seq<char>, c: char, a: int, b: int)
    requires
        !has_char(p, c),
        0 <= a <= b <= p.len(),
    ensures
        !has_char(p.subrange(a, b), c),
{
    if has_char(p.subrange(a, b), c) {
        let i = choose|i: int| 0 <= i < b - a && p.subrange(a, b)[i] == c;
        assert(p[a + i] == c);
    }
}

/// Without `\`, the last component starts at the same place under both rules.
proof fn lemma_component_start_without_backslash(p: Seq<char>)
    requires
        !has_char(p, '\\'),
    ensures
        last_component_start(p, true) == last_component_start(p, false),
    decreases p.len(),
{
    if p.len() > 0 {
        if p[p.len() - 1] == '\\' {
            assert(has_char(p, '\\'));
        }
        lemma_no_char_in_piece(p, '\\', 0, p.len() - 1);
        assert(p.drop_last() =~= p.subrange(0, p.len() - 1));
        lemma_component_start_without_backslash(p.drop_last());
    }
}

/// Without `\`, a path has the same file name under both rules.
proof fn lemma_file_name_without_backslash(p: Seq<char>)
    requires
        !has_char(p, '\\'),
    ensures
        file_name_of(p, true) == file_name_of(p, false),
    decreases p.len(),
{
    if p.len() > 0 {
        if p[p.len() - 1] == '\\' {
            assert(has_char(p, '\\'));
        }
        lemma_no_char_in_piece(p, '\\', 0, p.len() - 1);
        assert(p.drop_last() =~= p.subrange(0, p.len() - 1));
        if is_separator(p.last(), true) {
            lemma_file_name_without_backslash(p.drop_last());
        } else {
            lemma_component_start_without_backslash(p);
            lemma_last_component_start(p, true);
            let k = last_component_start(p, true);
            lemma_no_char_in_piece(p, '\\', 0, k);
            lemma_file_name_without_backslash(p.subrange(0, k));
        }
    }
}

/// A plain path has the same stem under Windows rules as under the rules
/// where only `/` separates.
proof fn lemma_plain_path_rules_agree(path: Seq<char>)
    requires
        is_plain_path(path),
    ensures
        has_known_windows_rules(path),
        windows_rule_stem(path) == slash_rule_stem(path),
{
    if path.len() >= 2 && path[1] == ':' {
        assert(has_char(path, ':'));
    }
    if path.len() >= 2 && path[0] == '\\' {
        assert(has_char(path, '\\'));
    }
    if path.len() >= 2 && path[1] == '\\' {
        assert(has_char(path, '\\'));
    }
    lemma_file_name_without_backslash(path);
}

/// The last component of `q + s`, where `q` ends with a separator and `s`
/// holds none, starts right after `q`.
proof fn lemma_component_start_after_separator(q: Seq<char>, s: Seq<char>)
    requires
        q.len() > 0,
        is_separator(q.last(), true),
        forall|i: int| 0 <= i < s.len() ==> !is_separator(#[trigger] s[i], true),
    ensures
        last_component_start(q + s, true) == q.len(),
    decreases s.len(),
{
    if s.len() == 0 {
        assert(q + s =~= q);
    } else {
        let p = q + s;
        assert(p.last() == s[s.len() - 1]);
        assert(p.drop_last() =~= q + s.drop_last());
        lemma_component_start_after_separator(q, s.drop_last());
    }
}

/// The last `.` of `u + t`, where `u` ends with `.` and `t` holds none, is
/// the last character of `u`.
proof fn lemma_last_dot_before_tail(u: Seq<char>, t: Seq<char>)
    requires
        u.len() > 0,
        u.last() == '.',
        forall|i: int| 0 <= i < t.len() ==> #[trigger] t[i] != '.',
    ensures
        last_dot(u + t) == u.len() - 1,
    decreases t.len(),
{
    if t.len() == 0 {
        assert(u + t =~= u);
    } else {
        let p = u + t;
        assert(p.last() == t[t.len() - 1]);
        assert(p.drop_last() =~= u + t.drop_last());
        lemma_last_dot_before_tail(u, t.drop_last());
    }
}

/// The executable name of a window whose path is on a drive, such as
/// `C:\Windows\System32\notepad.exe`, is the stem of the path's last
/// component (`notepad`): the folders before it, separated by `\` or `/`,
/// and its extension are not part of it.
pub proof fn lemma_drive_path_name_is_last_stem(
    path: Seq<char>,
    dir: Seq<char>,
    sep: char,
    stem: Seq<char>,
    ext: Seq<char>,
    name: Seq<char>,
)
    requires
        is_window_name_of(path, name),
        path == dir + seq![sep] + stem + seq!['.'] + ext,
        is_drive_path(path),
        dir.len() >= 2,
        is_separator(sep, true),
        stem.len() > 0,
        ext.len() > 0,
        forall|i: int| 0 <= i < stem.len() ==> !is_separator(#[trigger] stem[i], true),
        forall|i: int| 0 <= i < ext.len() ==> !is_separator(#[trigger] ext[i], true) && ext[i] != '.',
    ensures
        name == stem,
{
    let q = dir.subrange(2, dir.len() as int) + seq![sep];
    let u = stem + seq!['.'];
    let nm = u + ext;
    let p = path.subrange(2, path.len() as int);
    assert(p =~= q + nm);
    assert forall|i: int| 0 <= i < nm.len() implies !is_separator(#[trigger] nm[i], true) by {
        if i < stem.len() {
            assert(nm[i] == stem[i]);
        } else if i > stem.len() {
            assert(nm[i] == ext[i - stem.len() - 1]);
        }
    }
    lemma_component_start_after_separator(q, nm);
    assert(p.last() == nm[nm.len() - 1]);
    assert(p.subrange(q.len() as int, p.len() as int) =~= nm);
    assert(nm.len() >= 3);
    assert(nm != seq!['.']);
    assert(nm != seq!['.', '.']);
    assert(file_name_of(p, true) == Some(nm));
    lemma_last_dot_before_tail(u, ext);
    assert(nm.subrange(0, stem.len() as int) =~= stem);
}

/// The position just after the last separator (`/` or `\`) of
/// `c[start..end]`, or `start` when there is none.
fn component_start(c: &Vec<char>, start: usize, end: usize) -> (res: usize)
    requires
        start <= end <= c.len(),
    ensures
        start <= res <= end,
        res - start == last_component_start(c@.subrange(start as int, end as int), true),
{
    let mut j = end;
    while j > start
        invariant
            start <= j <= end <= c.len(),
            last_component_start(c@.subrange(start as int, end as int), true) == last_component_start(
                c@.subrange(start as int, j as int),
                true,
            ),
        decreases j - start,
    {
        proof {
            let q = c@.subrange(start as int, j as int);
            assert(q.drop_last() =~= c@.subrange(start as int, j - 1));
            assert(q.last() == c@[j - 1]);
        }
        if c[j - 1] == '/' || c[j - 1] == '\\' {
            return j;
        }
        j -= 1;
    }
    j
}

/// One past the position of the last `.` of `c[start..end]`, or `start`
/// when there is none.
fn after_last_dot(c: &Vec<char>, start: usize, end: usize) -> (res: usize)
    requires
        start <= end <= c.len(),
    ensures
        start <= res <= end,
        last_dot(c@.subrange(start as int, end as int)) == res - start - 1,
{
    let mut j = end;
    while j > start
        invariant
            start <= j <= end <= c.len(),
            last_dot(c@.subrange(start as int, end as int)) == last_dot(c@.subrange(start as int, j as int)),
        decreases j - start,
    {
        proof {
            let q = c@.subrange(start as int, j as int);
            assert(q.drop_last() =~= c@.subrange(start as int, j - 1));
            assert(q.last() == c@[j - 1]);
        }
        if c[j - 1] == '.' {
            return j;
        }
        j -= 1;
    }
    j
}

/// The bounds of the file name of `c[start..end]` under Windows rules, if
/// it has one.
fn file_name_bounds(c: &Vec<char>, start: usize, end: usize) -> (res: Option<(usize, usize)>)
    requires
        start <= end <= c.len(),
    ensures
        match res {
            Some((a, b)) => start <= a < b <= end && file_name_of(c@.subrange(start as int, end as int), true)
                == Some(c@.subrange(a as int, b as int)),
            None => file_name_of(c@.subrange(start as int, end as int), true) is None,
        },
{
    let mut e = end;
    loop
        invariant
            start <= e <= end <= c.len(),
            file_name_of(c@.subrange(start as int, end as int), true) == file_name_of(
                c@.subrange(start as int, e as int),
                true,
            ),
        decreases e - start,
    {
        if e == start {
            return None;
        }
        let ghost p = c@.subrange(start as int, e as int);
        proof {
            assert(p.drop_last() =~= c@.subrange(start as int, e - 1));
            assert(p.last() == c@[e - 1]);
        }
        if c[e - 1] == '/' || c[e - 1] == '\\' {
            e -= 1;
        } else {
            let k = component_start(c, start, e);
            proof {
                lemma_last_component_start(p, true);
                assert(p.subrange(k - start, p.len() as int) =~= c@.subrange(k as int, e as int));
                assert(p.subrange(0, k - start) =~= c@.subrange(start as int, k as int));
            }
            let ghost nm = c@.subrange(k as int, e as int);
            if e - k == 1 && c[k] == '.' {
                proof {
                    assert(nm =~= seq!['.']);
                }
                e = k;
            } else if e - k == 2 && c[k] == '.' && c[k + 1] == '.' {
                proof {
                    assert(nm =~= seq!['.', '.']);
                }
                return None;
            } else {
                proof {
                    if nm == seq!['.'] {
                        assert(nm[0] == c@[k as int]);
                    }
                    if nm == seq!['.', '.'] {
                        assert(nm[0] == c@[k as int]);
                        assert(nm[1] == c@[k + 1]);
                    }
                }
                return Some((k, e));
            }
        }
    }
}

/// The position of the first separator of `c` at or after `i`, or the
/// length of `c` when there is none.
fn separator_from(c: &Vec<char>, i: usize) -> (res: usize)
    requires
        i <= c.len(),
    ensures
        i <= res <= c.len(),
        res == first_separator_from(c@, i as int),
{
    let mut j = i;
    while j < c.len()
        invariant
            i <= j <= c.len(),
            first_separator_from(c@, i as int) == first_separator_from(c@, j as int),
        decreases c.len() - j,
    {
        if c[j] == '/' || c[j] == '\\' {
            return j;
        }
        j += 1;
    }
    j
}

/// Whether `c` holds `ch`.
fn holds_char(c: &Vec<char>, ch: char) -> (res: bool)
    ensures
        res == has_char(c@, ch),
{
    let mut j: usize = 0;
    while j < c.len()
        invariant
            j <= c.len(),
            forall|l: int| 0 <= l < j ==> c@[l] != ch,
        decreases c.len() - j,
    {
        if c[j] == ch {
            return true;
        }
        j += 1;
    }
    false
}

/// Whether `c` starts with a drive.
fn starts_with_drive(c: &Vec<char>) -> (res: bool)
    ensures
        res == is_drive_path(c@),
{
    c.len() >= 2 && c[1] == ':' && (('A' <= c[0] && c[0] <= 'Z') || ('a' <= c[0] && c[0] <= 'z'))
}

/// Whether `c` is a network path.
fn is_network_path(c: &Vec<char>) -> (res: bool)
    ensures
        res == is_unc_path(c@),
{
    if c.len() < 3 || c[0] != '\\' || c[1] != '\\' {
        return false;
    }
    if c[2] == '/' || c[2] == '\\' || c[2] == '?' || c[2] == '.' {
        return false;
    }
    let server_end = separator_from(c, 2);
    server_end < c.len() && server_end + 1 < c.len() && c[server_end + 1] != '/' && c[server_end + 1] != '\\'
}

/// The bounds of the stem of the file name `c[a..b]`.
fn stem_end(c: &Vec<char>, a: usize, b: usize) -> (res: usize)
    requires
        a < b <= c.len(),
    ensures
        a < res <= b,
        c@.subrange(a as int, res as int) == stem_of_name(c@.subrange(a as int, b as int)),
{
    let d = after_last_dot(c, a, b);
    if d <= a + 1 {
        b
    } else {
        proof {
            assert(c@.subrange(a as int, b as int).subrange(0, d - a - 1) =~= c@.subrange(a as int, d - 1));
        }
        d - 1
    }
}

/// The bounds of the file stem of the path `c` under Windows rules, if it
/// has one.
fn windows_stem_bounds(c: &Vec<char>) -> (res: Option<(usize, usize)>)
    ensures
        match res {
            Some((a, b)) => a < b <= c.len() && windows_rule_stem(c@) == Some(c@.subrange(a as int, b as int)),
            None => windows_rule_stem(c@) is None,
        },
{
    let n = c.len();
    let start = if starts_with_drive(c) {
        2
    } else if is_network_path(c) {
        let server_end = separator_from(c, 2);
        let share_end = separator_from(c, server_end + 1);
        if share_end < n {
            share_end + 1
        } else {
            proof {
                assert(unc_rest(c@) =~= c@.subrange(n as int, n as int));
            }
            n
        }
    } else {
        proof {
            assert(c@.subrange(0, n as int) =~= c@);
        }
        0
    };
    match file_name_bounds(c, start, n) {
        Some((a, b)) => {
            let e = stem_end(c, a, b);
            Some((a, e))
        },
        None => None,
    }
}

/// Whether the Windows rules of the path `c` are known here.
fn windows_rules_known(c: &Vec<char>) -> (res: bool)
    ensures
        res == has_known_windows_rules(c@),
{
    if starts_with_drive(c) || is_network_path(c) {
        return true;
    }
    !holds_char(c, ':') && !(c.len() >= 2 && (c[0] == '/' || c[0] == '\\') && (c[1] == '/' || c[1] == '\\'))
}

/// The executable name of `path`: its file stem, or `UNKNOWN` when it has
/// none. Where the Windows rules of the path are known the stem is taken
/// under them here; other paths go to the platform's own rules.
fn executable_name(path: &str) -> (res: String)
    ensures
        is_window_name_of(path@, res@),
        has_known_windows_rules(path@) ==> res@ == name_from_stem(windows_rule_stem(path@)),
{
    let c = chars_of(path);
    if windows_rules_known(&c) {
        proof {
            if is_plain_path(path@) {
                lemma_plain_path_rules_agree(path@);
            }
        }
        match windows_stem_bounds(&c) {
            Some((a, b)) => {
                let stem = String::from_str(path.substring_char(a, b));
                proof {
                    assert(path@.subrange(a as int, a + stem@.len()) == stem@);
                }
                stem
            },
            None => String::from_str("UNKNOWN"),
        }
    } else {
        proof {
            if is_plain_path(path@) {
                lemma_plain_path_rules_agree(path@);
            }
        }
        match file_stem(path) {
            Some(stem) => stem,
            None => String::from_str("UNKNOWN"),
        }
    }
}

/// The characters of `s`, in order.
fn chars_of(s: &str) -> (res: Vec<char>)
    ensures
        res@ == s@,
{
    let n = s.unicode_len();
    let mut res: Vec<char> = Vec::new();
    let mut i: usize = 0;
    while i < n
        invariant
            n == s@.len(),
            i <= n,
            res@ == s@.subrange(0, i as int),
        decreases n - i,
    {
        res.push(s.get_char(i));
        i += 1;
        proof {
            assert(res@ =~= s@.subrange(0, i as int));
        }
    }
    proof {
        assert(s@.subrange(0, n as int) =~= s@);
    }
    res
}

/// Whether `part` occurs as a contiguous piece of `s`, as `str::contains` decides.
pub fn contains_text(s: &str, part: &str) -> (res: bool)
    ensures
        res == contains_seq(s@, part@),
{
    let hay = chars_of(s);
    let needle = chars_of(part);
    let n = hay.len();
    let m = needle.len();
    if m > n {
        return false;
    }
    let mut i: usize = 0;
    while i <= n - m
        invariant
            hay@ == s@,
            needle@ == part@,
            n == hay.len(),
            m == needle.len(),
            m <= n,
            i <= n - m + 1,
            forall|j: int| 0 <= j < i ==> #[trigger] s@.subrange(j, j + m) != part@,
        decreases n - m + 1 - i,
    {
        let mut k: usize = 0;
        let mut same = true;
        while k < m && same
            invariant
                hay@ == s@,
                needle@ == part@,
                n == hay.len(),
                m == needle.len(),
                i + m <= n,
                k <= m,
                same ==> forall|l: int| 0 <= l < k ==> hay@[i + l] == needle@[l],
                !same ==> exists|l: int| 0 <= l < m && hay@[i + l] != needle@[l],
            decreases m - k + (if same { 1int } else { 0int }),
        {
            if hay[i + k] != needle[k] {
                same = false;
                proof {
                    assert(hay@[i + k] != needle@[k as int]);
                }
            } else {
                k += 1;
            }
        }
        if same {
            proof {
                assert(s@.subrange(i as int, i + m) =~= part@);
            }
            return true;
        }
        proof {
            let l = choose|l: int| 0 <= l < m && hay@[i + l] != needle@[l];
            assert(s@.subrange(i as int, i + m)[l] != part@[l]);
        }
        i += 1;
    }
    proof {
        assert forall|j: int| 0 <= j && j + part@.len() <= s@.len() implies #[trigger] s@.subrange(j, j + part@.len()) != part@ by {
            assert(j < i);
        }
    }
    false
}

impl WindowInfo {
    /// A window with the handle `hwnd` and the texts read about it; its
    /// executable name is taken from `exe_path`.
    pub fn new(hwnd: usize, title: String, exe_path: String, class_name: String) -> (res: Self)
        ensures
            res@.hwnd == hwnd,
            res@.title == title@,
            res@.exe_path == exe_path@,
            res@.class_name == class_name@,
            is_window_name_of(exe_path@, res@.name),
            has_known_windows_rules(exe_path@) ==> res@.name == name_from_stem(windows_rule_stem(exe_path@)),
    {
        let name = executable_name(exe_path.as_str());
        WindowInfo { hwnd, title, exe_path, class_name, name }
    }

    /// The window's handle.
    pub fn hwnd(&self) -> (res: usize)
        ensures
            res == self@.hwnd,
    {
        self.hwnd
    }

    /// Whether a window with this title (when one could be read) is listed:
    /// it needs a non-empty title.
    pub fn is_listed_title(title: &Option<String>) -> (res: bool)
        ensures
            res == (match title {
                Some(t) => t@.len() > 0,
                None => false,
            }),
    {
        match title {
            Some(t) => !t.as_str().is_empty(),
            None => false,
        }
    }

    /// The entry that a visible window gets in the list of windows, from
    /// what could be read about it: none when it has no title (or an empty
    /// one); otherwise its title, with `UNKNOWN_CLASS` and
    /// `UNKNOWN_EXE_PATH` standing for a class name or path that could not
    /// be read.
    pub fn listed(hwnd: usize, class_name: Option<String>, title: Option<String>, exe_path: Option<String>) -> (res: Option<Self>)
        ensures
            (match title {
                Some(t) => t@.len() > 0,
                None => false,
            }) <==> res is Some,
            res matches Some(w) ==> {
                &&& w@.hwnd == hwnd
                &&& w@.title == title->0@
                &&& w@.exe_path == match exe_path {
                    Some(p) => p@,
                    None => "UNKNOWN_EXE_PATH"@,
                }
                &&& w@.class_name == match class_name {
                    Some(c) => c@,
                    None => "UNKNOWN_CLASS"@,
                }
                &&& is_window_name_of(w@.exe_path, w@.name)
            },
    {
        let class_name = match class_name {
            Some(c) => c,
            None => String::from_str("UNKNOWN_CLASS"),
        };
        let title = match title {
            Some(t) => {
                if t.as_str().is_empty() {
                    return None;
                }
                t
            },
            None => return None,
        };
        let exe_path = match exe_path {
            Some(p) => p,
            None => String::from_str("UNKNOWN_EXE_PATH"),
        };
        let name = executable_name(exe_path.as_str());
        Some(WindowInfo { hwnd, title, exe_path, class_name, name })
    }

    /// The name of the window's executable: the file stem of its path, or
    /// `UNKNOWN` when the path has none (see `is_window_name_of`).
    pub fn name(&self) -> (res: String)
        ensures
            res@ == self@.name,
            is_window_name_of(self@.exe_path, res@),
            has_known_windows_rules(self@.exe_path) ==> res@ == name_from_stem(windows_rule_stem(self@.exe_path)),
    {
        proof {
            use_type_invariant(self);
        }
        self.name.clone()
    }

    /// The window's class name.
    pub fn class(&self) -> (res: &String)
        ensures
            res@ == self@.class_name,
    {
        &self.class_name
    }

    /// The window's title as a slug: spaces become `-`, then the text is
    /// lowercased.
    pub fn title(&self) -> (res: String)
        ensures
            res@ == lowercase(dashes_for_spaces(self@.title)),
            is_ascii_text(self@.title) ==> res@ == ascii_lowercase(dashes_for_spaces(self@.title)),
    {
        let n = self.title.as_str().unicode_len();
        let mut dashed = String::new();
        let mut i: usize = 0;
        while i < n
            invariant
                n == self@.title.len(),
                i <= n,
                dashed@ == dashes_for_spaces(self@.title).subrange(0, i as int),
            decreases n - i,
        {
            let c = self.title.as_str().get_char(i);
            proof {
                reveal_strlit("-");
            }
            if c == ' ' {
                dashed.append("-");
            } else {
                dashed.append(self.title.as_str().substring_char(i, i + 1));
            }
            i += 1;
            proof {
                assert(dashed@ =~= dashes_for_spaces(self@.title).subrange(0, i as int));
            }
        }
        proof {
            assert(dashes_for_spaces(self@.title).subrange(0, n as int) =~= dashes_for_spaces(self@.title));
            if is_ascii_text(self@.title) {
                assert forall|i: int| 0 <= i < dashed@.len() implies (#[trigger] dashed@[i] as u32) < 128 by {
                    assert((self@.title[i] as u32) < 128);
                }
            }
        }
        to_lowercase(dashed.as_str())
    }

    /// The path of the window's executable.
    pub fn exe_path(&self) -> (res: &String)
        ensures
            res@ == self@.exe_path,
    {
        &self.exe_path
    }
}


/// The views of a sequence of windows.
pub open spec fn windows_view(ws: Seq<WindowInfo>) -> Seq<WindowInfoView> {
    ws.map_values(|w: WindowInfo| w@)
}

/// The windows at the positions that `keep` selects, in order.
pub open spec fn filter_windows(ws: Seq<WindowInfoView>, keep: spec_fn(int) -> bool) -> Seq<WindowInfoView>
    decreases ws.len(),
{
    if ws.len() == 0 {
        Seq::empty()
    } else {
        let rest = filter_windows(ws.drop_last(), keep);
        if keep(ws.len() - 1) {
            rest.push(ws.last())
        } else {
            rest
        }
    }
}

/// The first selected window, if any.
pub open spec fn first_window(selected: Seq<WindowInfoView>) -> Option<WindowInfoView> {
    if selected.len() > 0 {
        Some(selected[0])
    } else {
        None
    }
}

/// Selection by title: the lowercased title contains the lowercased search text.
pub open spec fn title_selects(ws: Seq<WindowInfoView>, search: Seq<char>) -> spec_fn(int) -> bool {
    |i: int| contains_seq(lowercase(ws[i].title), search_key(search))
}

/// Selection by executable name: the lowercased name of the window
/// contains the lowercased search text.
pub open spec fn name_selects(ws: Seq<WindowInfoView>, search: Seq<char>) -> spec_fn(int) -> bool {
    |i: int| contains_seq(lowercase(ws[i].name), search_key(search))
}

/// The lowercased search text: its ASCII lowercase form when it is ASCII
/// (what `str::to_lowercase` gives there), its `lowercase` otherwise.
pub open spec fn search_key(search: Seq<char>) -> Seq<char> {
    if is_ascii_text(search) {
        ascii_lowercase(search)
    } else {
        lowercase(search)
    }
}

/// Filtering a prefix gives a prefix of the filtered whole.
proof fn lemma_filter_prefix(ws: Seq<WindowInfoView>, keep: spec_fn(int) -> bool, k: int)
    requires
        0 <= k <= ws.len(),
    ensures
        filter_windows(ws.take(k), keep).len() <= filter_windows(ws, keep).len(),
        forall|j: int| 0 <= j < filter_windows(ws.take(k), keep).len() ==> #[trigger] filter_windows(ws, keep)[j]
            == filter_windows(ws.take(k), keep)[j],
    decreases ws.len(),
{
    if k < ws.len() {
        lemma_filter_prefix(ws.drop_last(), keep, k);
        assert(ws.drop_last().take(k) =~= ws.take(k));
    } else {
        assert(ws.take(k) =~= ws);
    }
}

/// Filtering looks only at the selection of positions inside the sequence.
proof fn lemma_filter_same_selection(ws: Seq<WindowInfoView>, k1: spec_fn(int) -> bool, k2: spec_fn(int) -> bool)
    requires
        forall|i: int| 0 <= i < ws.len() ==> #[trigger] k1(i) == k2(i),
    ensures
        filter_windows(ws, k1) == filter_windows(ws, k2),
    decreases ws.len(),
{
    if ws.len() > 0 {
        lemma_filter_same_selection(ws.drop_last(), k1, k2);
    }
}

/// One more window added to a filtered prefix.
proof fn lemma_filter_step(ws: Seq<WindowInfoView>, keep: spec_fn(int) -> bool, i: int)
    requires
        0 <= i < ws.len(),
    ensures
        filter_windows(ws.take(i + 1), keep) == if keep(i) {
            filter_windows(ws.take(i), keep).push(ws[i])
        } else {
            filter_windows(ws.take(i), keep)
        },
{
    assert(ws.take(i + 1).drop_last() =~= ws.take(i));
}

/// The windows whose lowercased title contains the lowercased `title`, in order.
pub fn find_windows_by_title(windows: &Vec<WindowInfo>, title: &str) -> (res: Vec<WindowInfo>)
    ensures
        windows_view(res@) == filter_windows(windows_view(windows@), title_selects(windows_view(windows@), title@)),
{
    let ghost ws = windows_view(windows@);
    let ghost keep = title_selects(ws, title@);
    let search = to_lowercase(title);
    let mut res: Vec<WindowInfo> = Vec::new();
    let n = windows.len();
    let mut i: usize = 0;
    while i < n
        invariant
            n == windows.len(),
            ws == windows_view(windows@),
            keep == title_selects(ws, title@),
            search@ == search_key(title@),
            i <= n,
            windows_view(res@) == filter_windows(ws.take(i as int), keep),
        decreases n - i,
    {
        let w = &windows[i];
        let lowered = to_lowercase(w.title.as_str());
        let hit = contains_text(lowered.as_str(), search.as_str());
        proof {
            assert(ws[i as int] == w@);
            lemma_filter_step(ws, keep, i as int);
        }
        if hit {
            let ghost before = res@;
            res.push(w.clone());
            proof {
                assert(windows_view(res@) =~= windows_view(before).push(ws[i as int]));
            }
        }
        i += 1;
    }
    proof {
        assert(ws.take(n as int) =~= ws);
    }
    res
}

/// The first window whose lowercased title contains the lowercased `title`.
pub fn find_window_by_title(windows: &Vec<WindowInfo>, title: &str) -> (res: Option<WindowInfo>)
    ensures
        (match res {
            Some(w) => Some(w@),
            None => None,
        }) == first_window(filter_windows(windows_view(windows@), title_selects(windows_view(windows@), title@))),
{
    let ghost ws = windows_view(windows@);
    let ghost keep = title_selects(ws, title@);
    let search = to_lowercase(title);
    let n = windows.len();
    let mut i: usize = 0;
    while i < n
        invariant
            n == windows.len(),
            ws == windows_view(windows@),
            keep == title_selects(ws, title@),
            search@ == search_key(title@),
            i <= n,
            filter_windows(ws.take(i as int), keep).len() == 0,
        decreases n - i,
    {
        let w = &windows[i];
        let lowered = to_lowercase(w.title.as_str());
        let hit = contains_text(lowered.as_str(), search.as_str());
        proof {
            assert(ws[i as int] == w@);
            lemma_filter_step(ws, keep, i as int);
        }
        if hit {
            proof {
                lemma_filter_prefix(ws, keep, i + 1);
                assert(filter_windows(ws.take(i + 1), keep)[0] == ws[i as int]);
            }
            return Some(w.clone());
        }
        i += 1;
    }
    proof {
        assert(ws.take(n as int) =~= ws);
    }
    None
}

/// The windows whose lowercased executable name contains the lowercased
/// `exe_name`, in order.
pub fn find_windows_by_exe_name(windows: &Vec<WindowInfo>, exe_name: &str) -> (res: Vec<WindowInfo>)
    ensures
        windows_view(res@) == filter_windows(windows_view(windows@), name_selects(windows_view(windows@), exe_name@)),
{
    let ghost ws = windows_view(windows@);
    let ghost keep = name_selects(ws, exe_name@);
    let search = to_lowercase(exe_name);
    let mut res: Vec<WindowInfo> = Vec::new();
    let n = windows.len();
    let mut i: usize = 0;
    while i < n
        invariant
            n == windows.len(),
            ws == windows_view(windows@),
            keep == name_selects(ws, exe_name@),
            search@ == search_key(exe_name@),
            i <= n,
            windows_view(res@) == filter_windows(ws.take(i as int), keep),
        decreases n - i,
    {
        let w = &windows[i];
        let lowered = to_lowercase(w.name.as_str());
        let hit = contains_text(lowered.as_str(), search.as_str());
        proof {
            assert(ws[i as int] == w@);
            lemma_filter_step(ws, keep, i as int);
        }
        if hit {
            let ghost before = res@;
            res.push(w.clone());
            proof {
                assert(windows_view(res@) =~= windows_view(before).push(ws[i as int]));
            }
        }
        i += 1;
    }
    proof {
        assert(ws.take(n as int) =~= ws);
    }
    res
}

/// The first window whose lowercased executable name contains the
/// lowercased `exe_name`.
pub fn find_window_by_exe_name(windows: &Vec<WindowInfo>, exe_name: &str) -> (res: Option<WindowInfo>)
    ensures
        (match res {
            Some(w) => Some(w@),
            None => None,
        }) == first_window(filter_windows(windows_view(windows@), name_selects(windows_view(windows@), exe_name@))),
{
    let ghost ws = windows_view(windows@);
    let ghost keep = name_selects(ws, exe_name@);
    let search = to_lowercase(exe_name);
    let n = windows.len();
    let mut i: usize = 0;
    while i < n
        invariant
            n == windows.len(),
            ws == windows_view(windows@),
            keep == name_selects(ws, exe_name@),
            search@ == search_key(exe_name@),
            i <= n,
            filter_windows(ws.take(i as int), keep).len() == 0,
        decreases n - i,
    {
        let w = &windows[i];
        let lowered = to_lowercase(w.name.as_str());
        let hit = contains_text(lowered.as_str(), search.as_str());
        proof {
            assert(ws[i as int] == w@);
            lemma_filter_step(ws, keep, i as int);
        }
        if hit {
            proof {
                lemma_filter_prefix(ws, keep, i + 1);
                assert(filter_windows(ws.take(i + 1), keep)[0] == ws[i as int]);
            }
            return Some(w.clone());
        }
        i += 1;
    }
    proof {
        assert(ws.take(n as int) =~= ws);
    }
    None
}

/// A search for one window gives the first window that the search for all
/// windows gives, by title and by executable name: it is none exactly when
/// that search finds none.
pub proof fn lemma_first_search_heads_all(ws: Seq<WindowInfoView>, search: Seq<char>)
    ensures
        first_window(filter_windows(ws, title_selects(ws, search))) == (if filter_windows(
            ws,
            title_selects(ws, search),
        ).len() > 0 {
            Some(filter_windows(ws, title_selects(ws, search))[0])
        } else {
            None
        }),
        first_window(filter_windows(ws, name_selects(ws, search))) == (if filter_windows(
            ws,
            name_selects(ws, search),
        ).len() > 0 {
            Some(filter_windows(ws, name_selects(ws, search))[0])
        } else {
            None
        }),
{
}

/// Whether two texts differ only in the case of ASCII letters.
pub open spec fn same_ignoring_ascii_case(s: Seq<char>, t: Seq<char>) -> bool {
    &&& s.len() == t.len()
    &&& forall|i: int| 0 <= i < s.len() ==> ascii_lower_char(#[trigger] s[i]) == ascii_lower_char(t[i])
}

/// ASCII search texts that differ only in case give the same search key.
proof fn lemma_search_key_ignores_ascii_case(s: Seq<char>, t: Seq<char>)
    requires
        is_ascii_text(s),
        is_ascii_text(t),
        same_ignoring_ascii_case(s, t),
    ensures
        search_key(s) == search_key(t),
{
    assert(ascii_lowercase(s) =~= ascii_lowercase(t)) by {
        assert forall|i: int| 0 <= i < s.len() implies ascii_lowercase(s)[i] == ascii_lowercase(t)[i] by {
            assert(ascii_lower_char(s[i]) == ascii_lower_char(t[i]));
        }
    }
}

/// Searching by title ignores the case of an ASCII search text: two ASCII
/// texts that differ only in case select the same windows.
pub proof fn lemma_title_search_ignores_ascii_case(ws: Seq<WindowInfoView>, s: Seq<char>, t: Seq<char>)
    requires
        is_ascii_text(s),
        is_ascii_text(t),
        same_ignoring_ascii_case(s, t),
    ensures
        filter_windows(ws, title_selects(ws, s)) == filter_windows(ws, title_selects(ws, t)),
{
    lemma_search_key_ignores_ascii_case(s, t);
    lemma_filter_same_selection(ws, title_selects(ws, s), title_selects(ws, t));
}

/// Searching by executable name ignores the case of an ASCII search text.
pub proof fn lemma_name_search_ignores_ascii_case(ws: Seq<WindowInfoView>, s: Seq<char>, t: Seq<char>)
    requires
        is_ascii_text(s),
        is_ascii_text(t),
        same_ignoring_ascii_case(s, t),
    ensures
        filter_windows(ws, name_selects(ws, s)) == filter_windows(ws, name_selects(ws, t)),
{
    lemma_search_key_ignores_ascii_case(s, t);
    lemma_filter_same_selection(ws, name_selects(ws, s), name_selects(ws, t));
}

/// Keeping every position keeps every window.
proof fn lemma_filter_all(ws: Seq<WindowInfoView>, keep: spec_fn(int) -> bool)
    requires
        forall|i: int| 0 <= i < ws.len() ==> #[trigger] keep(i),
    ensures
        filter_windows(ws, keep) == ws,
    decreases ws.len(),
{
    if ws.len() > 0 {
        lemma_filter_all(ws.drop_last(), keep);
        assert(ws.drop_last().push(ws.last()) =~= ws);
    }
}

/// Every text contains the empty text.
proof fn lemma_contains_empty(s: Seq<char>)
    ensures
        contains_seq(s, Seq::empty()),
{
    let e = Seq::<char>::empty();
    assert(s.subrange(0int, 0int + e.len()) =~= e);
}

/// An empty search text selects every window, by title and by name.
pub proof fn lemma_empty_search_selects_all(ws: Seq<WindowInfoView>)
    ensures
        filter_windows(ws, title_selects(ws, Seq::empty())) == ws,
        filter_windows(ws, name_selects(ws, Seq::empty())) == ws,
{
    assert(search_key(Seq::empty()) =~= Seq::<char>::empty());
    assert forall|i: int| 0 <= i < ws.len() implies #[trigger] title_selects(ws, Seq::empty())(i) by {
        lemma_contains_empty(lowercase(ws[i].title));
    }
    assert forall|i: int| 0 <= i < ws.len() implies #[trigger] name_selects(ws, Seq::empty())(i) by {
        lemma_contains_empty(lowercase(ws[i].name));
    }
    lemma_filter_all(ws, title_selects(ws, Seq::empty()));
    lemma_filter_all(ws, name_selects(ws, Seq::empty()));
}

/// The answer to a request on a window handle: refused with `Invalid
/// window handle` when the handle names no window, otherwise carried out.
pub fn check_window_handle(is_window: bool) -> (res: Result<(), String>)
    ensures
        res is Ok <==> is_window,
        res matches Err(e) ==> e@ == "Invalid window handle"@,
{
    if is_window {
        Ok(())
    } else {
        Err(String::from_str("Invalid window handle"))
    }
}

/// What has been learned while bringing a window to the front.
#[derive(Debug)]
pub enum FrontEvent {
    /// Nothing yet.
    Started,
    /// Whether the handle names a window.
    WindowChecked(bool),
    /// Whether the window is minimized.
    MinimizedChecked(bool),
    /// The window was restored.
    Restored,
    /// Whether the window became the foreground window.
    ForegroundSet(bool),
    /// The window was forced to the front.
    Forced,
}

/// The next step of bringing a window to the front.
#[derive(Debug)]
pub enum FrontAction {
    /// Ask whether the handle names a window.
    CheckWindow,
    /// Ask whether the window is minimized.
    CheckMinimized,
    /// Restore the minimized window.
    Restore,
    /// Try to make the window the foreground window.
    SetForeground,
    /// Force the window to the front by attaching input threads.
    Force,
    /// Stop with this answer.
    Finish(Result<(), String>),
}

/// Bringing a window to the front, one step at a time: a handle that names
/// no window is refused; a minimized window is restored first; then the
/// window is made the foreground window, and forced to the front when that
/// fails.
pub fn bring_to_front_step(event: FrontEvent) -> (res: FrontAction)
    ensures
        match event {
            FrontEvent::Started => res is CheckWindow,
            FrontEvent::WindowChecked(ok) => if ok {
                res is CheckMinimized
            } else {
                res matches FrontAction::Finish(Err(e)) && e@ == "Invalid window handle"@
            },
            FrontEvent::MinimizedChecked(minimized) => if minimized {
                res is Restore
            } else {
                res is SetForeground
            },
            FrontEvent::Restored => res is SetForeground,
            FrontEvent::ForegroundSet(ok) => if ok {
                res matches FrontAction::Finish(Ok(_))
            } else {
                res is Force
            },
            FrontEvent::Forced => res matches FrontAction::Finish(Ok(_)),
        },
{
    match event {
        FrontEvent::Started => FrontAction::CheckWindow,
        FrontEvent::WindowChecked(ok) => match check_window_handle(ok) {
            Ok(()) => FrontAction::CheckMinimized,
            Err(e) => FrontAction::Finish(Err(e)),
        },
        FrontEvent::MinimizedChecked(minimized) => if minimized {
            FrontAction::Restore
        } else {
            FrontAction::SetForeground
        },
        FrontEvent::Restored => FrontAction::SetForeground,
        FrontEvent::ForegroundSet(ok) => if ok {
            FrontAction::Finish(Ok(()))
        } else {
            FrontAction::Force
        },
        FrontEvent::Forced => FrontAction::Finish(Ok(())),
    }
}

/// The threads whose input is attached to the calling thread (and later
/// detached) to bring a window to the front: the foreground window's
/// thread unless it is the caller, then the target window's thread unless
/// it is the caller or the foreground thread.
pub fn threads_to_attach(foreground_thread: u32, target_thread: u32, current_thread: u32) -> (res: Vec<u32>)
    ensures
        res@ == (if foreground_thread != current_thread { seq![foreground_thread] } else { Seq::empty() }) + (
        if target_thread != current_thread && target_thread != foreground_thread {
            seq![target_thread]
        } else {
            Seq::empty()
        }),
{
    let mut res: Vec<u32> = Vec::new();
    if foreground_thread != current_thread {
        res.push(foreground_thread);
    }
    if target_thread != current_thread && target_thread != foreground_thread {
        res.push(target_thread);
    }
    proof {
        assert(res@ =~= (if foreground_thread != current_thread { seq![foreground_thread] } else { Seq::empty() }) + (
        if target_thread != current_thread && target_thread != foreground_thread {
            seq![target_thread]
        } else {
            Seq::empty()
        }));
    }
    res
}

} // verus!
