//! Character-level text helpers shared by the parsers and formatters.
//!
//! Text is modelled as `Seq<char>`, the view of `str` and `String`.
use vstd::prelude::*;

verus! {

/// Unicode `White_Space`, the set that `char::is_whitespace` tests.
pub open spec fn is_space(c: char) -> bool {
    let u = c as u32;
    ||| 0x09 <= u <= 0x0d
    ||| u == 0x20
    ||| u == 0x85
    ||| u == 0xa0
    ||| u == 0x1680
    ||| 0x2000 <= u <= 0x200a
    ||| u == 0x2028
    ||| u == 0x2029
    ||| u == 0x202f
    ||| u == 0x205f
    ||| u == 0x3000
}

/// `s` with its leading white space removed (`str::trim_start`).
pub open spec fn trim_start(s: Seq<char>) -> Seq<char>
    decreases s.len(),
{
    if s.len() > 0 && is_space(s[0]) {
        trim_start(s.drop_first())
    } else {
        s
    }
}

/// `s` with its trailing white space removed (`str::trim_end`).
pub open spec fn trim_end(s: Seq<char>) -> Seq<char>
    decreases s.len(),
{
    if s.len() > 0 && is_space(s.last()) {
        trim_end(s.drop_last())
    } else {
        s
    }
}

/// `s` with white space removed at both ends (`str::trim`).
pub open spec fn trim(s: Seq<char>) -> Seq<char> {
    trim_end(trim_start(s))
}

/// `needle` stands in `hay` at position `i`.
pub open spec fn occurs_at(hay: Seq<char>, needle: Seq<char>, i: int) -> bool {
    0 <= i && i + needle.len() <= hay.len() && hay.subrange(i, i + needle.len()) == needle
}

/// The first position at or after `from` where `needle` stands in `hay`.
pub open spec fn find_from(hay: Seq<char>, needle: Seq<char>, from: int) -> Option<int>
    decreases hay.len() + 1 - from,
{
    if from < 0 || from + needle.len() > hay.len() {
        None
    } else if occurs_at(hay, needle, from) {
        Some(from)
    } else {
        find_from(hay, needle, from + 1)
    }
}

/// The first position where `needle` stands in `hay` (`str::find`).
pub open spec fn find(hay: Seq<char>, needle: Seq<char>) -> Option<int> {
    find_from(hay, needle, 0)
}

/// `hay` contains `needle` somewhere (`str::contains`).
pub open spec fn contains(hay: Seq<char>, needle: Seq<char>) -> bool {
    find(hay, needle) is Some
}

/// `s` begins with `p`.
pub open spec fn starts_with(s: Seq<char>, p: Seq<char>) -> bool {
    p.len() <= s.len() && s.subrange(0, p.len() as int) == p
}

/// `s` ends with `p`.
pub open spec fn ends_with(s: Seq<char>, p: Seq<char>) -> bool {
    p.len() <= s.len() && s.subrange(s.len() - p.len(), s.len() as int) == p
}

/// The decimal digit character for `d < 10`.
pub open spec fn digit_char(d: nat) -> char {
    (d + 48) as char
}

/// Decimal representation of `n`, without sign or leading zeros.
pub open spec fn decimal(n: nat) -> Seq<char>
    decreases n,
{
    if n < 10 {
        seq![digit_char(n)]
    } else {
        decimal(n / 10).push(digit_char(n % 10))
    }
}

pub proof fn lemma_find_from_found(hay: Seq<char>, needle: Seq<char>, from: int)
    requires
        find_from(hay, needle, from) is Some,
    ensures
        occurs_at(hay, needle, find_from(hay, needle, from)->0),
        from <= find_from(hay, needle, from)->0,
        forall|j: int| from <= j < find_from(hay, needle, from)->0 ==> !occurs_at(hay, needle, j),
    decreases hay.len() + 1 - from,
{
    if from < 0 || from + needle.len() > hay.len() {
    } else if occurs_at(hay, needle, from) {
    } else {
        lemma_find_from_found(hay, needle, from + 1);
    }
}

/// Calls `String::push`, which appends `c` to `s`; the contract states
/// exactly that.
#[verifier::external_body]
pub(crate) fn push_char(s: &mut String, c: char)
    ensures
        final(s)@ == old(s)@.push(c),
{
    s.push(c);
}

/// The characters of `s`, in order.
pub fn chars_of(s: &str) -> (v: Vec<char>)
    ensures
        v@ == s@,
{
    let mut v: Vec<char> = Vec::new();
    for c in it: s.chars()
        invariant
            v@ == it.seq().take(it.index() as int),
    {
        v.push(c);
    }
    proof {
        broadcast use vstd::string::axiom_spec_iter;
        assert(v@ =~= s@);
    }
    v
}

/// Appends the characters `v[from..to]` to `out`.
pub fn push_chars(out: &mut String, v: &Vec<char>, from: usize, to: usize)
    requires
        from <= to <= v@.len(),
    ensures
        final(out)@ == old(out)@ + v@.subrange(from as int, to as int),
{
    let mut i: usize = from;
    while i < to
        invariant
            from <= i <= to <= v@.len(),
            out@ == old(out)@ + v@.subrange(from as int, i as int),
        decreases to - i,
    {
        push_char(out, v[i]);
        i = i + 1;
        assert(v@.subrange(from as int, i as int) =~= v@.subrange(from as int, i - 1).push(v@[i - 1]));
    }
}

/// A new string holding `v[from..to]`.
pub fn string_of(v: &Vec<char>, from: usize, to: usize) -> (s: String)
    requires
        from <= to <= v@.len(),
    ensures
        s@ == v@.subrange(from as int, to as int),
{
    let mut s = String::new();
    push_chars(&mut s, v, from, to);
    s
}

/// Appends the text `t` to `out`.
pub fn push_str(out: &mut String, t: &str)
    ensures
        final(out)@ == old(out)@ + t@,
{
    out.append(t);
}

/// Tests `char::is_whitespace`.
pub fn is_space_char(c: char) -> (b: bool)
    ensures
        b == is_space(c),
{
    let u = c as u32;
    (0x09 <= u && u <= 0x0d) || u == 0x20 || u == 0x85 || u == 0xa0 || u == 0x1680 || (0x2000
        <= u && u <= 0x200a) || u == 0x2028 || u == 0x2029 || u == 0x202f || u == 0x205f || u
        == 0x3000
}

/// The bounds `(start, end)` of `v[from..to]` with white space trimmed at both ends.
pub fn trim_bounds(v: &Vec<char>, from: usize, to: usize) -> (r: (usize, usize))
    requires
        from <= to <= v@.len(),
    ensures
        from <= r.0 <= r.1 <= to,
        v@.subrange(r.0 as int, r.1 as int) == trim(v@.subrange(from as int, to as int)),
{
    let ghost s = v@.subrange(from as int, to as int);
    let mut a: usize = from;
    while a < to && is_space_char(v[a])
        invariant
            from <= a <= to <= v@.len(),
            trim_start(s) == trim_start(v@.subrange(a as int, to as int)),
        decreases to - a,
    {
        assert(v@.subrange(a + 1, to as int) =~= v@.subrange(a as int, to as int).drop_first());
        a = a + 1;
    }
    let ghost t = v@.subrange(a as int, to as int);
    assert(trim_start(t) == t);
    let mut b: usize = to;
    while b > a && is_space_char(v[b - 1])
        invariant
            from <= a <= b <= to <= v@.len(),
            trim_end(t) == trim_end(v@.subrange(a as int, b as int)),
        decreases b,
    {
        assert(v@.subrange(a as int, b - 1) =~= v@.subrange(a as int, b as int).drop_last());
        b = b - 1;
    }
    (a, b)
}

/// `v[i..i + needle.len()] == needle`.
pub fn matches_at(v: &Vec<char>, i: usize, needle: &Vec<char>) -> (b: bool)
    ensures
        b == occurs_at(v@, needle@, i as int),
{
    if needle.len() > v.len() || i > v.len() - needle.len() {
        return false;
    }
    let mut k: usize = 0;
    while k < needle.len()
        invariant
            i + needle@.len() <= v@.len(),
            k <= needle@.len(),
            i + needle@.len() <= v.len(),
            forall|j: int| 0 <= j < k ==> v@[i + j] == needle@[j],
        decreases needle.len() - k,
    {
        if v[i + k] != needle[k] {
            assert(v@.subrange(i as int, i + needle@.len())[k as int] != needle@[k as int]);
            return false;
        }
        k = k + 1;
    }
    assert(v@.subrange(i as int, i + needle@.len()) =~= needle@);
    true
}

/// The first position at or after `from` where `needle` stands in `v` (`str::find`).
pub fn find_chars(v: &Vec<char>, needle: &Vec<char>, from: usize) -> (r: Option<usize>)
    ensures
        r matches Some(i) ==> find_from(v@, needle@, from as int) == Some(i as int),
        r is None ==> find_from(v@, needle@, from as int) is None,
{
    if needle.len() > v.len() || from > v.len() - needle.len() {
        return None;
    }
    let limit: usize = v.len() - needle.len();
    let mut i: usize = from;
    while i <= limit
        invariant
            from <= i,
            limit + needle@.len() == v@.len(),
            find_from(v@, needle@, from as int) == find_from(v@, needle@, i as int),
        decreases limit + 1 - i,
    {
        if matches_at(v, i, needle) {
            return Some(i);
        }
        if i == limit {
            assert(find_from(v@, needle@, i + 1) is None);
            return None;
        }
        i = i + 1;
    }
    None
}

/// Appends the decimal representation of `n` to `out`.
pub fn push_decimal(out: &mut String, n: u64)
    ensures
        final(out)@ == old(out)@ + decimal(n as nat),
    decreases n,
{
    if n >= 10 {
        push_decimal(out, n / 10);
    }
    let d: u8 = (n % 10) as u8;
    let c: char = (48u8 + d) as char;
    assert(c == digit_char((n % 10) as nat));
    push_char(out, c);
    proof {
        if n >= 10 {
            assert(decimal(n as nat) == decimal((n / 10) as nat).push(digit_char((n % 10) as nat)));
        } else {
            assert(decimal(n as nat) == seq![digit_char(n as nat)]);
        }
        assert(out@ =~= old(out)@ + decimal(n as nat));
    }
}

/// The pieces of `s` between occurrences of `c` (`str::split` with a char):
/// one more piece than there are occurrences, empty pieces kept.
pub open spec fn split_on(s: Seq<char>, c: char) -> Seq<Seq<char>>
    decreases s.len(),
{
    if s.len() == 0 {
        seq![Seq::<char>::empty()]
    } else {
        let rest = split_on(s.drop_last(), c);
        if s.last() == c {
            rest.push(Seq::<char>::empty())
        } else {
            rest.update(rest.len() - 1, rest.last().push(s.last()))
        }
    }
}

pub proof fn lemma_split_on_nonempty(s: Seq<char>, c: char)
    ensures
        split_on(s, c).len() >= 1,
    decreases s.len(),
{
    if s.len() > 0 {
        lemma_split_on_nonempty(s.drop_last(), c);
    }
}

/// No piece of `split_on(s, c)` holds `c`.
pub proof fn lemma_split_on_pieces_lack_separator(s: Seq<char>, c: char)
    ensures
        forall|k: int, j: int|
            0 <= k < split_on(s, c).len() && 0 <= j < split_on(s, c)[k].len() ==> #[trigger] split_on(
                s,
                c,
            )[k][j] != c,
    decreases s.len(),
{
    if s.len() > 0 {
        let rest = split_on(s.drop_last(), c);
        lemma_split_on_pieces_lack_separator(s.drop_last(), c);
        lemma_split_on_nonempty(s.drop_last(), c);
        let p = split_on(s, c);
        assert forall|k: int, j: int| 0 <= k < p.len() && 0 <= j < p[k].len() implies #[trigger] p[k][j]
            != c by {
            if s.last() == c {
                if k < rest.len() {
                    assert(p[k] == rest[k]);
                }
            } else {
                if k < rest.len() - 1 {
                    assert(p[k] == rest[k]);
                } else {
                    assert(p[k] == rest.last().push(s.last()));
                    if j < rest.last().len() {
                        assert(p[k][j] == rest[rest.len() - 1][j]);
                    }
                }
            }
        }
    }
}

/// Bounds of the pieces of `v` between occurrences of `c`.
pub fn split_bounds(v: &Vec<char>, c: char) -> (b: Vec<(usize, usize)>)
    ensures
        b@.len() == split_on(v@, c).len(),
        forall|k: int|
#![trigger b@[k]]
            0 <= k < b@.len() ==> {
                &&& b@[k].0 <= b@[k].1 <= v@.len()
                &&& v@.subrange(b@[k].0 as int, b@[k].1 as int) == split_on(v@, c)[k]
            },
{
    let mut b: Vec<(usize, usize)> = Vec::new();
    let mut start: usize = 0;
    let mut i: usize = 0;
    assert(v@.take(0) =~= Seq::<char>::empty());
    while i < v.len()
        invariant
            start <= i <= v@.len(),
            b@.len() + 1 == split_on(v@.take(i as int), c).len(),
            forall|k: int|
#![trigger b@[k]]
                0 <= k < b@.len() ==> {
                    &&& b@[k].0 <= b@[k].1 <= i
                    &&& v@.subrange(b@[k].0 as int, b@[k].1 as int) == split_on(
                        v@.take(i as int),
                        c,
                    )[k]
                },
            v@.subrange(start as int, i as int) == split_on(v@.take(i as int), c).last(),
        decreases v.len() - i,
    {
        let ghost prev = split_on(v@.take(i as int), c);
        let ghost old_b = b@;
        assert(v@.take(i + 1).drop_last() =~= v@.take(i as int));
        assert(v@.take(i + 1).last() == v@[i as int]);
        proof {
            lemma_split_on_nonempty(v@.take(i as int), c);
        }
        if v[i] == c {
            b.push((start, i));
            assert(split_on(v@.take(i + 1), c) == prev.push(Seq::<char>::empty()));
            assert forall|k: int| #![trigger b@[k]] 0 <= k < b@.len() implies {
                &&& b@[k].0 <= b@[k].1 <= i + 1
                &&& v@.subrange(b@[k].0 as int, b@[k].1 as int) == split_on(
                    v@.take(i + 1),
                    c,
                )[k]
            } by {
                if k < old_b.len() {
                    assert(b@[k] == old_b[k]);
                    assert(v@.subrange(old_b[k].0 as int, old_b[k].1 as int) == prev[k]);
                }
            }
            start = i + 1;
            assert(v@.subrange(start as int, i + 1) =~= Seq::<char>::empty());
        } else {
            let ghost next = prev.update(prev.len() - 1, prev.last().push(v@[i as int]));
            assert(split_on(v@.take(i + 1), c) == next);
            assert forall|k: int| #![trigger b@[k]] 0 <= k < b@.len() implies {
                &&& b@[k].0 <= b@[k].1 <= i + 1
                &&& v@.subrange(b@[k].0 as int, b@[k].1 as int) == split_on(
                    v@.take(i + 1),
                    c,
                )[k]
            } by {
                assert(v@.subrange(b@[k].0 as int, b@[k].1 as int) == prev[k]);
            }
            assert(v@.subrange(start as int, i + 1) =~= v@.subrange(start as int, i as int).push(
                v@[i as int],
            ));
        }
        i = i + 1;
    }
    assert(v@.take(v@.len() as int) =~= v@);
    let ghost old_b = b@;
    b.push((start, i));
    assert forall|k: int| #![trigger b@[k]] 0 <= k < b@.len() implies {
        &&& b@[k].0 <= b@[k].1 <= v@.len()
        &&& v@.subrange(b@[k].0 as int, b@[k].1 as int) == split_on(v@, c)[k]
    } by {
        if k < old_b.len() {
            assert(b@[k] == old_b[k]);
            assert(v@.subrange(old_b[k].0 as int, old_b[k].1 as int) == split_on(v@, c)[k]);
        }
    }
    b
}

/// `v[from..to]` equals the text `lit`.
pub fn slice_equals(v: &Vec<char>, from: usize, to: usize, lit: &str) -> (b: bool)
    requires
        from <= to <= v@.len(),
    ensures
        b == (v@.subrange(from as int, to as int) == lit@),
{
    let w = chars_of(lit);
    if to - from != w.len() {
        return false;
    }
    let mut k: usize = 0;
    while k < w.len()
        invariant
            to - from == w@.len(),
            from <= to <= v@.len(),
            w@ == lit@,
            k <= w@.len(),
            forall|j: int| 0 <= j < k ==> v@[from + j] == w@[j],
        decreases w.len() - k,
    {
        if v[from + k] != w[k] {
            assert(v@.subrange(from as int, to as int)[k as int] != w@[k as int]);
            return false;
        }
        k = k + 1;
    }
    assert(v@.subrange(from as int, to as int) =~= w@);
    true
}

/// What `String::from_utf8_lossy` makes of `bytes`.
pub uninterp spec fn lossy_utf8(bytes: Seq<u8>) -> Seq<char>;

/// Calls `String::from_utf8_lossy`: the text that `bytes` encode, with each
/// invalid sequence replaced by U+FFFD. As its documentation states, valid
/// UTF-8 comes back decoded unchanged; what replaces invalid input is left
/// to the name `lossy_utf8`.
#[verifier::external_body]
pub(crate) fn decode_lossy(bytes: &[u8]) -> (s: String)
    ensures
        s@ == lossy_utf8(bytes@),
        vstd::utf8::valid_utf8(bytes@) ==> s@ == vstd::utf8::decode_utf8(bytes@),
{
    String::from_utf8_lossy(bytes).into_owned()
}

/// The first position at or after `i` that does not hold white space.
pub open spec fn skip_spaces(s: Seq<char>, i: int) -> int
    decreases s.len() - i,
{
    if i < 0 || i >= s.len() || !is_space(s[i]) {
        i
    } else {
        skip_spaces(s, i + 1)
    }
}

/// The first position at or after `i` that holds white space, or the end.
pub open spec fn skip_word(s: Seq<char>, i: int) -> int
    decreases s.len() - i,
{
    if i < 0 || i >= s.len() || is_space(s[i]) {
        i
    } else {
        skip_word(s, i + 1)
    }
}

/// The second white-space-separated word of `s`, if it has two.
pub open spec fn second_word(s: Seq<char>) -> Option<Seq<char>> {
    let a0 = skip_spaces(s, 0);
    let a1 = skip_spaces(s, skip_word(s, a0));
    if a0 >= s.len() || a1 >= s.len() {
        None
    } else {
        Some(s.subrange(a1, skip_word(s, a1)))
    }
}

pub fn skip_spaces_exec(v: &Vec<char>, i: usize) -> (r: usize)
    requires
        i <= v@.len(),
    ensures
        r == skip_spaces(v@, i as int),
        i <= r <= v@.len(),
{
    let mut j: usize = i;
    while j < v.len() && is_space_char(v[j])
        invariant
            i <= j <= v@.len(),
            skip_spaces(v@, i as int) == skip_spaces(v@, j as int),
        decreases v.len() - j,
    {
        j = j + 1;
    }
    j
}

pub fn skip_word_exec(v: &Vec<char>, i: usize) -> (r: usize)
    requires
        i <= v@.len(),
    ensures
        r == skip_word(v@, i as int),
        i <= r <= v@.len(),
{
    let mut j: usize = i;
    while j < v.len() && !is_space_char(v[j])
        invariant
            i <= j <= v@.len(),
            skip_word(v@, i as int) == skip_word(v@, j as int),
        decreases v.len() - j,
    {
        j = j + 1;
    }
    j
}

/// Bounds of the second white-space-separated word of `v`, if it has two.
pub fn second_word_bounds(v: &Vec<char>) -> (r: Option<(usize, usize)>)
    ensures
        r is None ==> second_word(v@) is None,
        r matches Some(b) ==> b.0 <= b.1 <= v@.len() && second_word(v@) == Some(
            v@.subrange(b.0 as int, b.1 as int),
        ),
{
    let a0 = skip_spaces_exec(v, 0);
    if a0 >= v.len() {
        return None;
    }
    let b0 = skip_word_exec(v, a0);
    let a1 = skip_spaces_exec(v, b0);
    if a1 >= v.len() {
        return None;
    }
    let b1 = skip_word_exec(v, a1);
    Some((a1, b1))
}

/// A new vector holding `v[from..to]`.
pub fn sub_vec(v: &Vec<char>, from: usize, to: usize) -> (r: Vec<char>)
    requires
        from <= to <= v@.len(),
    ensures
        r@ == v@.subrange(from as int, to as int),
{
    let mut r: Vec<char> = Vec::new();
    let mut i: usize = from;
    while i < to
        invariant
            from <= i <= to <= v@.len(),
            r@ == v@.subrange(from as int, i as int),
        decreases to - i,
    {
        r.push(v[i]);
        i = i + 1;
        assert(r@ =~= v@.subrange(from as int, i as int));
    }
    r
}

} // verus!
