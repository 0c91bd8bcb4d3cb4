//! Naming what is being built from the latest lines of the build log.
use vstd::prelude::*;
use crate::clock::epoch_now;
use crate::logs::LogLine;
use crate::text::{
    chars_of, ends_with, find, find_chars, lemma_find_from_found, lemma_split_on_nonempty,
    push_str, slice_equals, split_bounds, split_on, string_of, sub_vec, trim,
    trim_bounds, is_space_char, is_space, find_from, occurs_at, trim_start, trim_end,
};

verus! {

/// Longest label shown before it is clipped.
pub const MAX_LABEL_CHARS: usize = 56;

/// Seconds after the last log activity during which a build counts as running.
pub const BUILD_ACTIVE_WINDOW_SECS: u64 = 20;

/// The prefix of every store path.
pub open spec fn store_prefix() -> Seq<char> {
    "/nix/store/"@
}

/// Characters that end a store path inside a log line.
pub open spec fn ends_path(c: char) -> bool {
    ||| is_space(c)
    ||| c == '\''
    ||| c == '"'
    ||| c == ','
    ||| c == ';'
    ||| c == ')'
    ||| c == '('
    ||| c == '['
    ||| c == ']'
    ||| c == '{'
    ||| c == '}'
    ||| c == '<'
    ||| c == '>'
}

/// The first position at or after `i` holding a character that ends a path, or the end.
pub open spec fn path_end(s: Seq<char>, i: int) -> int
    decreases s.len() - i,
{
    if i < 0 || i >= s.len() || ends_path(s[i]) {
        i
    } else {
        path_end(s, i + 1)
    }
}

/// `s` without its trailing `.` and `:` characters.
pub open spec fn strip_dots(s: Seq<char>) -> Seq<char>
    decreases s.len(),
{
    if s.len() > 0 && (s.last() == '.' || s.last() == ':') {
        strip_dots(s.drop_last())
    } else {
        s
    }
}

/// The first store path mentioned in `line`: from the first `/nix/store/`
/// to the first character that ends a path, trailing `.` and `:` dropped;
/// `None` where nothing follows the prefix.
pub open spec fn store_path(line: Seq<char>) -> Option<Seq<char>> {
    match find(line, store_prefix()) {
        None => None,
        Some(start) => {
            let candidate = line.subrange(start, line.len() as int);
            let token = strip_dots(candidate.subrange(0, path_end(candidate, 0)));
            if token.len() <= store_prefix().len() {
                None
            } else {
                Some(token)
            }
        },
    }
}

/// `s` clipped to `max` characters, with `...` appended where it was clipped.
pub open spec fn clipped(s: Seq<char>, max: nat) -> Seq<char> {
    if s.len() <= max {
        s
    } else {
        s.take(max as int) + "..."@
    }
}

/// `s` without the suffix `.drv`, or failing that `.drv.chroot`.
pub open spec fn without_drv(s: Seq<char>) -> Seq<char> {
    if ends_with(s, ".drv"@) {
        s.take(s.len() - 4)
    } else if ends_with(s, ".drv.chroot"@) {
        s.take(s.len() - 11)
    } else {
        s
    }
}

/// What follows the first `-` of `s`, or all of `s` where it has none.
pub open spec fn after_dash(s: Seq<char>) -> Seq<char> {
    match find(s, "-"@) {
        Some(i) => s.subrange(i + 1, s.len() as int),
        None => s,
    }
}

/// The package named by store path `path`: its last component without the
/// hash and the derivation suffix, clipped; `None` where nothing is left.
pub open spec fn path_target(path: Seq<char>) -> Option<Seq<char>> {
    let label = trim(after_dash(without_drv(split_on(path, '/').last())));
    if label.len() == 0 {
        None
    } else {
        Some(clipped(label, MAX_LABEL_CHARS as nat))
    }
}

/// The build command `line` holds: from the first of `nix build`,
/// `nix-build`, `nix shell`, `nix develop` that occurs in it (tried in that
/// order) to the end, trimmed and clipped.
pub open spec fn command_target(line: Seq<char>) -> Option<Seq<char>> {
    let found = if find(line, "nix build"@) is Some {
        find(line, "nix build"@)
    } else if find(line, "nix-build"@) is Some {
        find(line, "nix-build"@)
    } else if find(line, "nix shell"@) is Some {
        find(line, "nix shell"@)
    } else {
        find(line, "nix develop"@)
    };
    match found {
        None => None,
        Some(i) => {
            let command = trim(line.subrange(i, line.len() as int));
            if command.len() == 0 {
                None
            } else {
                Some(clipped(command, MAX_LABEL_CHARS as nat))
            }
        },
    }
}

/// What a (trimmed) log line says is being built: a store path's package,
/// else a build command.
pub open spec fn line_target(raw: Seq<char>) -> Option<Seq<char>> {
    if raw.len() == 0 {
        None
    } else if store_path(raw) is Some && path_target(store_path(raw)->0) is Some {
        path_target(store_path(raw)->0)
    } else {
        command_target(raw)
    }
}

/// The target named by the latest line of `raws` that names one.
pub open spec fn infer_target(raws: Seq<Seq<char>>) -> Option<Seq<char>>
    decreases raws.len(),
{
    if raws.len() == 0 {
        None
    } else {
        let here = line_target(trim(raws.last()));
        if here is Some {
            here
        } else {
            infer_target(raws.drop_last())
        }
    }
}

/// The raw texts of `lines`.
pub open spec fn raws(lines: Seq<LogLine>) -> Seq<Seq<char>> {
    lines.map_values(|l: LogLine| l.raw@)
}

/// The terminal's title: names the target while a build ran within the
/// last `BUILD_ACTIVE_WINDOW_SECS` before `now`.
pub open spec fn log_title(lines: Seq<LogLine>, last_build_epoch: Option<u64>, now: u64) -> Seq<
    char,
> {
    let active = match last_build_epoch {
        Some(epoch) => (if now >= epoch {
            now - epoch
        } else {
            0
        }) <= BUILD_ACTIVE_WINDOW_SECS,
        None => false,
    };
    if active && infer_target(raws(lines)) is Some {
        "build log: "@ + infer_target(raws(lines))->0
    } else {
        "build log"@
    }
}

fn clip_chars(v: &Vec<char>, from: usize, to: usize, max_len: usize) -> (r: String)
    requires
        from <= to <= v@.len(),
    ensures
        r@ == clipped(v@.subrange(from as int, to as int), max_len as nat),
{
    if to - from <= max_len {
        string_of(v, from, to)
    } else {
        let mut r = string_of(v, from, from + max_len);
        push_str(&mut r, "...");
        assert(v@.subrange(from as int, from + max_len) =~= v@.subrange(from as int, to as int).take(
            max_len as int,
        ));
        r
    }
}

/// `input` clipped to `max_len` characters, `...` appended where it was clipped.
pub fn trim_label(input: &str, max_len: usize) -> (r: String)
    ensures
        r@ == clipped(input@, max_len as nat),
{
    let v = chars_of(input);
    assert(v@.subrange(0, v@.len() as int) =~= v@);
    clip_chars(&v, 0, v.len(), max_len)
}

fn ends_path_char(c: char) -> (b: bool)
    ensures
        b == ends_path(c),
{
    is_space_char(c) || c == '\'' || c == '"' || c == ',' || c == ';' || c == ')' || c == '('
        || c == '[' || c == ']' || c == '{' || c == '}' || c == '<' || c == '>'
}

/// Bounds of the first store path mentioned in `v`.
fn store_path_bounds(v: &Vec<char>) -> (r: Option<(usize, usize)>)
    ensures
        r is None ==> store_path(v@) is None,
        r matches Some(b) ==> b.0 <= b.1 <= v@.len() && store_path(v@) == Some(
            v@.subrange(b.0 as int, b.1 as int),
        ),
{
    let prefix = chars_of("/nix/store/");
    let start = match find_chars(v, &prefix, 0) {
        Some(s) => s,
        None => {
            return None;
        },
    };
    proof {
        lemma_find_from_found(v@, prefix@, 0);
    }
    let ghost candidate = v@.subrange(start as int, v@.len() as int);
    let mut e: usize = start;
    while e < v.len() && !ends_path_char(v[e])
        invariant
            start <= e <= v@.len(),
            candidate == v@.subrange(start as int, v@.len() as int),
            path_end(candidate, 0) == path_end(candidate, e - start),
        decreases v.len() - e,
    {
        e = e + 1;
    }
    assert(path_end(candidate, e - start) == e - start);
    assert(candidate.subrange(0, e - start) =~= v@.subrange(start as int, e as int));
    let ghost token0 = v@.subrange(start as int, e as int);
    let mut t: usize = e;
    while t > start && (v[t - 1] == '.' || v[t - 1] == ':')
        invariant
            start <= t <= e <= v@.len(),
            strip_dots(token0) == strip_dots(v@.subrange(start as int, t as int)),
        decreases t,
    {
        assert(v@.subrange(start as int, t - 1) =~= v@.subrange(start as int, t as int).drop_last());
        t = t - 1;
    }
    assert(strip_dots(v@.subrange(start as int, t as int)) == v@.subrange(start as int, t as int));
    if t - start <= prefix.len() {
        None
    } else {
        Some((start, t))
    }
}

/// The first store path mentioned in `line`.
pub fn extract_nix_store_path(line: &str) -> (r: Option<String>)
    ensures
        r is None ==> store_path(line@) is None,
        r matches Some(p) ==> store_path(line@) == Some(p@),
{
    let v = chars_of(line);
    match store_path_bounds(&v) {
        Some((a, b)) => Some(string_of(&v, a, b)),
        None => None,
    }
}

fn target_of_path(p: &Vec<char>) -> (r: Option<String>)
    ensures
        r is None ==> path_target(p@) is None,
        r matches Some(t) ==> path_target(p@) == Some(t@),
{
    let pieces = split_bounds(p, '/');
    proof {
        lemma_split_on_nonempty(p@, '/');
    }
    let (a, e) = pieces[pieces.len() - 1];
    let base = sub_vec(p, a, e);
    let n: usize = base.len();
    let stem_end: usize = if n >= 4 && slice_equals(&base, n - 4, n, ".drv") {
        n - 4
    } else if n >= 11 && slice_equals(&base, n - 11, n, ".drv.chroot") {
        n - 11
    } else {
        n
    };
    assert(base@.subrange(0, stem_end as int) == without_drv(base@)) by {
        reveal_strlit(".drv");
        reveal_strlit(".drv.chroot");
        assert(base@.subrange(0, stem_end as int) =~= base@.take(stem_end as int));
        if n >= 4 {
            assert(base@.subrange(n - 4, n as int) =~= base@.subrange(base@.len() - 4, base@.len() as int));
        }
        assert(base@.take(n as int) =~= base@);
    }
    let stem = sub_vec(&base, 0, stem_end);
    let dash = chars_of("-");
    let from: usize = match find_chars(&stem, &dash, 0) {
        Some(i) => {
            proof {
                lemma_find_from_found(stem@, dash@, 0);
                reveal_strlit("-");
            }
            i + 1
        },
        None => 0,
    };
    assert(stem@.subrange(from as int, stem@.len() as int) == after_dash(stem@)) by {
        if from == 0 {
            assert(stem@.subrange(0, stem@.len() as int) =~= stem@);
        }
    }
    let (ta, tb) = trim_bounds(&stem, from, stem.len());
    if ta == tb {
        assert(stem@.subrange(ta as int, tb as int).len() == 0);
        None
    } else {
        Some(clip_chars(&stem, ta, tb, MAX_LABEL_CHARS))
    }
}

/// The package named by store path `path`.
pub fn build_target_from_store_path(path: &str) -> (r: Option<String>)
    ensures
        r is None ==> path_target(path@) is None,
        r matches Some(t) ==> path_target(path@) == Some(t@),
{
    let v = chars_of(path);
    target_of_path(&v)
}

fn command_of(v: &Vec<char>) -> (r: Option<String>)
    ensures
        r is None ==> command_target(v@) is None,
        r matches Some(t) ==> command_target(v@) == Some(t@),
{
    let n1 = chars_of("nix build");
    let n2 = chars_of("nix-build");
    let n3 = chars_of("nix shell");
    let n4 = chars_of("nix develop");
    let found = match find_chars(v, &n1, 0) {
        Some(i) => Some(i),
        None => match find_chars(v, &n2, 0) {
            Some(i) => Some(i),
            None => match find_chars(v, &n3, 0) {
                Some(i) => Some(i),
                None => find_chars(v, &n4, 0),
            },
        },
    };
    match found {
        None => None,
        Some(i) => {
            proof {
                if find(v@, "nix build"@) is Some {
                    lemma_find_from_found(v@, "nix build"@, 0);
                } else if find(v@, "nix-build"@) is Some {
                    lemma_find_from_found(v@, "nix-build"@, 0);
                } else if find(v@, "nix shell"@) is Some {
                    lemma_find_from_found(v@, "nix shell"@, 0);
                } else {
                    lemma_find_from_found(v@, "nix develop"@, 0);
                }
            }
            let (a, b) = trim_bounds(v, i, v.len());
            if a == b {
                None
            } else {
                Some(clip_chars(v, a, b, MAX_LABEL_CHARS))
            }
        },
    }
}

/// The build command `line` holds, clipped.
pub fn extract_nix_command(line: &str) -> (r: Option<String>)
    ensures
        r is None ==> command_target(line@) is None,
        r matches Some(t) ==> command_target(line@) == Some(t@),
{
    let v = chars_of(line);
    command_of(&v)
}

fn target_of_line(raw: &str) -> (r: Option<String>)
    ensures
        r is None ==> line_target(trim(raw@)) is None,
        r matches Some(t) ==> line_target(trim(raw@)) == Some(t@),
{
    let v = chars_of(raw);
    let (a, b) = trim_bounds(&v, 0, v.len());
    assert(v@.subrange(0, v@.len() as int) =~= v@);
    if a == b {
        return None;
    }
    let t = sub_vec(&v, a, b);
    match store_path_bounds(&t) {
        Some((pa, pb)) => {
            let p = sub_vec(&t, pa, pb);
            match target_of_path(&p) {
                Some(label) => {
                    return Some(label);
                },
                None => {},
            }
        },
        None => {},
    }
    command_of(&t)
}

/// What the latest lines of the log say is being built.
pub fn infer_build_target(lines: &[LogLine]) -> (r: Option<String>)
    ensures
        r is None ==> infer_target(raws(lines@)) is None,
        r matches Some(t) ==> infer_target(raws(lines@)) == Some(t@),
{
    let ghost rs = raws(lines@);
    let mut k: usize = lines.len();
    assert(rs.take(lines@.len() as int) =~= rs);
    while k > 0
        invariant
            k <= lines@.len(),
            rs == raws(lines@),
            infer_target(rs) == infer_target(rs.take(k as int)),
        decreases k,
    {
        let ghost pre = rs.take(k as int);
        assert(pre.last() == lines@[k - 1].raw@);
        assert(pre.drop_last() =~= rs.take(k - 1));
        match target_of_line(lines[k - 1].raw.as_str()) {
            Some(t) => {
                return Some(t);
            },
            None => {},
        }
        k = k - 1;
    }
    None
}

/// The terminal's title for `lines` at time `now`.
pub fn build_log_title_at(lines: &[LogLine], last_build_epoch: Option<u64>, now: u64) -> (r:
    String)
    ensures
        r@ == log_title(lines@, last_build_epoch, now),
{
    let active = match last_build_epoch {
        Some(epoch) => now.saturating_sub(epoch) <= BUILD_ACTIVE_WINDOW_SECS,
        None => false,
    };
    let mut r = String::new();
    if !active {
        push_str(&mut r, "build log");
        return r;
    }
    match infer_build_target(lines) {
        Some(target) => {
            push_str(&mut r, "build log: ");
            push_str(&mut r, target.as_str());
        },
        None => {
            push_str(&mut r, "build log");
        },
    }
    r
}

/// The terminal's title for `lines`, judged by the current time.
pub fn build_log_title(lines: &[LogLine], last_build_epoch: Option<u64>) -> (r: String)
    ensures
        exists|now: u64| r@ == #[trigger] log_title(lines@, last_build_epoch, now),
{
    let now = epoch_now();
    build_log_title_at(lines, last_build_epoch, now)
}

/// The commands that name a build, in the order they are looked for.
pub open spec fn command_needles() -> Seq<Seq<char>> {
    seq!["nix build"@, "nix-build"@, "nix shell"@, "nix develop"@]
}

/// `find_from` meets every occurrence at or after `from`: it stops at one
/// no later than `i`.
proof fn lemma_find_reaches(hay: Seq<char>, needle: Seq<char>, from: int, i: int)
    requires
        0 <= from <= i,
        occurs_at(hay, needle, i),
    ensures
        find_from(hay, needle, from) is Some,
        find_from(hay, needle, from)->0 <= i,
    decreases i - from,
{
    if !occurs_at(hay, needle, from) {
        lemma_find_reaches(hay, needle, from + 1, i);
    }
}

/// Trailing white space never swallows a text whose first character is not
/// white space.
proof fn lemma_trim_end_keeps_first(s: Seq<char>)
    requires
        s.len() > 0,
        !is_space(s[0]),
    ensures
        trim_end(s).len() > 0,
        trim_end(s)[0] == s[0],
    decreases s.len(),
{
    if is_space(s.last()) {
        lemma_trim_end_keeps_first(s.drop_last());
    }
}

/// The text from an occurrence of a command to the end of `line`: trimming
/// it only removes trailing white space, and something is left.
proof fn lemma_command_suffix(line: Seq<char>, k: int, i: int)
    requires
        0 <= k < 4,
        occurs_at(line, command_needles()[k], i),
    ensures
        trim(line.subrange(i, line.len() as int)) == trim_end(line.subrange(i, line.len() as int)),
        trim(line.subrange(i, line.len() as int)).len() > 0,
        trim(line.subrange(i, line.len() as int)).take(command_needles()[k].len() as int)
            == command_needles()[k],
{
    reveal_strlit("nix build");
    reveal_strlit("nix-build");
    reveal_strlit("nix shell");
    reveal_strlit("nix develop");
    let n = command_needles()[k];
    let s = line.subrange(i, line.len() as int);
    assert(s[0] == line.subrange(i, i + n.len())[0]);
    assert(n[0] == 'n');
    assert(!is_space(s[0]));
    assert(trim_start(s) == s);
    lemma_trim_end_keeps_first(s);
    let t = trim_end(s);
    // The command itself holds no trailing white space, so trimming keeps it.
    assert(!is_space(n.last()));
    lemma_trim_end_last(s);
    assert(s.subrange(0, n.len() as int) =~= n);
    assert(s[n.len() - 1] == n.last());
    if t.len() < n.len() {
        assert(is_space(s[n.len() - 1]));
    }
    assert(t.take(n.len() as int) =~= s.subrange(0, n.len() as int));
}

/// What `trim_end` leaves is followed only by white space.
proof fn lemma_trim_end_last(s: Seq<char>)
    ensures
        trim_end(s).len() <= s.len(),
        trim_end(s) == s.take(trim_end(s).len() as int),
        forall|j: int| trim_end(s).len() <= j < s.len() ==> is_space(#[trigger] s[j]),
    decreases s.len(),
{
    if s.len() > 0 && is_space(s.last()) {
        lemma_trim_end_last(s.drop_last());
        let t = trim_end(s);
        assert(s.drop_last().take(t.len() as int) =~= s.take(t.len() as int));
        assert forall|j: int| t.len() <= j < s.len() implies is_space(#[trigger] s[j]) by {
            if j < s.len() - 1 {
                assert(s[j] == s.drop_last()[j]);
            }
        }
    } else {
        assert(s.take(s.len() as int) =~= s);
    }
}

/// A line names a build command exactly when one of `nix build`,
/// `nix-build`, `nix shell`, `nix develop` occurs in it.
pub proof fn law_command_recognised(line: Seq<char>)
    ensures
        command_target(line) is Some <==> exists|k: int, i: int|
            0 <= k < 4 && #[trigger] occurs_at(line, command_needles()[k], i),
{
    reveal_strlit("nix build");
    reveal_strlit("nix-build");
    reveal_strlit("nix shell");
    reveal_strlit("nix develop");
    let ns = command_needles();
    assert(ns[0] == "nix build"@ && ns[1] == "nix-build"@ && ns[2] == "nix shell"@ && ns[3]
        == "nix develop"@);
    let found = if find(line, ns[0]) is Some {
        (0int, find(line, ns[0]))
    } else if find(line, ns[1]) is Some {
        (1int, find(line, ns[1]))
    } else if find(line, ns[2]) is Some {
        (2int, find(line, ns[2]))
    } else {
        (3int, find(line, ns[3]))
    };
    if found.1 is Some {
        lemma_find_from_found(line, ns[found.0], 0);
        lemma_command_suffix(line, found.0, found.1->0);
        assert(occurs_at(line, command_needles()[found.0], found.1->0));
    } else {
        assert forall|k: int, i: int| 0 <= k < 4 implies !#[trigger] occurs_at(
            line,
            command_needles()[k],
            i,
        ) by {
            if occurs_at(line, ns[k], i) {
                lemma_find_reaches(line, ns[k], 0, i);
            }
        }
    }
}

/// The command shown: from the first occurrence of the first of `nix build`,
/// `nix-build`, `nix shell`, `nix develop` that the line holds, to the end
/// of the line, trailing white space dropped, clipped; it begins with that
/// command.
pub proof fn law_command_text(line: Seq<char>, k: int, i: int)
    requires
        0 <= k < 4,
        occurs_at(line, command_needles()[k], i),
        forall|p: int| 0 <= p < i ==> !#[trigger] occurs_at(line, command_needles()[k], p),
        forall|j: int, p: int| 0 <= j < k ==> !#[trigger] occurs_at(line, command_needles()[j], p),
    ensures
        command_target(line) == Some(
            clipped(trim_end(line.subrange(i, line.len() as int)), MAX_LABEL_CHARS as nat),
        ),
        trim_end(line.subrange(i, line.len() as int)).take(command_needles()[k].len() as int)
            == command_needles()[k],
{
    reveal_strlit("nix build");
    reveal_strlit("nix-build");
    reveal_strlit("nix shell");
    reveal_strlit("nix develop");
    let ns = command_needles();
    assert(ns[0] == "nix build"@ && ns[1] == "nix-build"@ && ns[2] == "nix shell"@ && ns[3]
        == "nix develop"@);
    assert forall|j: int| 0 <= j < k implies find(line, #[trigger] ns[j]) is None by {
        if find(line, ns[j]) is Some {
            lemma_find_from_found(line, ns[j], 0);
            assert(occurs_at(line, command_needles()[j], find(line, ns[j])->0));
        }
    }
    lemma_find_reaches(line, ns[k], 0, i);
    lemma_find_from_found(line, ns[k], 0);
    assert(find(line, ns[k]) == Some(i));
    lemma_command_suffix(line, k, i);
}

/// The title names the target only within `BUILD_ACTIVE_WINDOW_SECS` of the
/// last build output: a build further back than that leaves the plain
/// title, and once plain, the title stays plain at every later time.
pub proof fn law_title_window(lines: Seq<LogLine>, epoch: u64, now: u64, later: u64)
    ensures
        now > epoch + BUILD_ACTIVE_WINDOW_SECS ==> log_title(lines, Some(epoch), now)
            == "build log"@,
        epoch <= now <= epoch + BUILD_ACTIVE_WINDOW_SECS && infer_target(raws(lines)) is Some
            ==> log_title(lines, Some(epoch), now) == "build log: "@ + infer_target(raws(lines))->0,
        log_title(lines, None, now) == "build log"@,
        epoch <= now <= later && log_title(lines, Some(epoch), now) == "build log"@ ==> log_title(
            lines,
            Some(epoch),
            later,
        ) == "build log"@,
{
    reveal_strlit("build log");
    reveal_strlit("build log: ");
    if infer_target(raws(lines)) is Some {
        let t = infer_target(raws(lines))->0;
        assert(("build log: "@ + t).len() != "build log"@.len());
    }
}

/// A clipped label never exceeds the limit by more than the three dots, and
/// one within the limit is left as it is.
pub proof fn law_clip_bounded(s: Seq<char>, max: nat)
    ensures
        clipped(s, max).len() <= max + 3,
        s.len() <= max ==> clipped(s, max) == s,
        s.len() > max ==> clipped(s, max).take(max as int) == s.take(max as int),
{
    reveal_strlit("...");
    if s.len() > max {
        assert(clipped(s, max).take(max as int) =~= s.take(max as int));
    }
}

} // verus!
