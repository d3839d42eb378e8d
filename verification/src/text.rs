//! Character-level text helpers shared by the parsers and SQL builders.
//!
//! Strings are handled as sequences of `char`: the specification functions
//! below say what each operation computes on `Seq<char>`, and the executable
//! functions compute it on `Vec<char>`.

use vstd::prelude::*;

verus! {

pub assume_specification[ std::string::String::push ](s: &mut std::string::String, ch: char)
    ensures
        final(s)@ == old(s)@.push(ch),
;

// ---------------------------------------------------------------------------
// Conversions between `str`/`String` and character vectors
// ---------------------------------------------------------------------------

/// The characters of a string slice, in order.
pub fn chars_of(s: &str) -> (res: Vec<char>)
    ensures
        res@ == s@,
{
    let n = s.unicode_len();
    let mut res: Vec<char> = Vec::new();
    let mut i: usize = 0;
    while i < n
        invariant
            n == s@.len(),
            i <= n,
            res@ == s@.subrange(0, i as int),
        decreases n - i,
    {
        let c = s.get_char(i);
        res.push(c);
        i = i + 1;
        proof {
            assert(res@ =~= s@.subrange(0, i as int));
        }
    }
    proof {
        assert(res@ =~= s@);
    }
    res
}

/// A string holding exactly the given characters.
pub fn string_of(cs: &[char]) -> (res: String)
    ensures
        res@ == cs@,
{
    let mut res = String::new();
    let mut i: usize = 0;
    while i < cs.len()
        invariant
            i <= cs@.len(),
            res@ == cs@.subrange(0, i as int),
        decreases cs@.len() - i,
    {
        res.push(cs[i]);
        i = i + 1;
        proof {
            assert(res@ =~= cs@.subrange(0, i as int));
        }
    }
    proof {
        assert(res@ =~= cs@);
    }
    res
}

/// Appends the characters of `t` to `s`.
pub fn push_chars(s: &mut String, t: &[char])
    ensures
        final(s)@ == old(s)@ + t@,
{
    let ghost s0 = s@;
    let mut i: usize = 0;
    while i < t.len()
        invariant
            i <= t@.len(),
            s@ == s0 + t@.subrange(0, i as int),
        decreases t@.len() - i,
    {
        s.push(t[i]);
        i = i + 1;
        proof {
            assert(s@ =~= s0 + t@.subrange(0, i as int));
        }
    }
    proof {
        assert(t@.subrange(0, t@.len() as int) =~= t@);
    }
}

/// Appends a string slice to `s`.
pub fn push_str(s: &mut String, t: &str)
    ensures
        final(s)@ == old(s)@ + t@,
{
    let cs = chars_of(t);
    push_chars(s, &cs);
}

/// Appends the characters of `t` to the vector `v`.
pub fn extend_chars(v: &mut Vec<char>, t: &[char])
    ensures
        final(v)@ == old(v)@ + t@,
{
    let ghost v0 = v@;
    let mut i: usize = 0;
    while i < t.len()
        invariant
            i <= t@.len(),
            v@ == v0 + t@.subrange(0, i as int),
        decreases t@.len() - i,
    {
        v.push(t[i]);
        i = i + 1;
        proof {
            assert(v@ =~= v0 + t@.subrange(0, i as int));
        }
    }
    proof {
        assert(t@.subrange(0, t@.len() as int) =~= t@);
    }
}

/// A fresh copy of a character slice.
pub fn copy_chars(t: &[char]) -> (res: Vec<char>)
    ensures
        res@ == t@,
{
    let mut v: Vec<char> = Vec::new();
    extend_chars(&mut v, t);
    proof {
        assert(v@ =~= t@);
    }
    v
}

/// Equality of two character slices.
pub fn chars_eq(a: &[char], b: &[char]) -> (res: bool)
    ensures
        res == (a@ == b@),
{
    if a.len() != b.len() {
        return false;
    }
    let mut i: usize = 0;
    while i < a.len()
        invariant
            a@.len() == b@.len(),
            i <= a@.len(),
            forall|j: int| 0 <= j < i ==> a@[j] == b@[j],
        decreases a@.len() - i,
    {
        if a[i] != b[i] {
            return false;
        }
        i = i + 1;
    }
    proof {
        assert(a@ =~= b@);
    }
    true
}

/// Equality of two strings, by their characters.
pub fn str_eq(a: &str, b: &str) -> (res: bool)
    ensures
        res == (a@ == b@),
{
    let ca = chars_of(a);
    let cb = chars_of(b);
    chars_eq(&ca, &cb)
}

// ---------------------------------------------------------------------------
// Whitespace and trimming
// ---------------------------------------------------------------------------

/// The Unicode `White_Space` property, which is what `char::is_whitespace` tests.
pub open spec fn is_ws(c: char) -> bool {
    let u = c as u32;
    (9 <= u && u <= 13) || u == 32 || u == 0x85 || u == 0xa0 || u == 0x1680 || (0x2000 <= u
        && u <= 0x200a) || u == 0x2028 || u == 0x2029 || u == 0x202f || u == 0x205f || u
        == 0x3000
}

pub fn is_whitespace(c: char) -> (res: bool)
    ensures
        res == is_ws(c),
{
    let u = c as u32;
    (9 <= u && u <= 13) || u == 32 || u == 0x85 || u == 0xa0 || u == 0x1680 || (0x2000 <= u
        && u <= 0x200a) || u == 0x2028 || u == 0x2029 || u == 0x202f || u == 0x205f || u
        == 0x3000
}

/// Which characters a trim removes: whitespace, or one given character.
#[derive(Clone, Copy)]
pub enum CharSet {
    Whitespace,
    Only(char),
}

pub open spec fn in_set(k: CharSet, c: char) -> bool {
    match k {
        CharSet::Whitespace => is_ws(c),
        CharSet::Only(x) => c == x,
    }
}

pub fn in_set_exec(k: CharSet, c: char) -> (res: bool)
    ensures
        res == in_set(k, c),
{
    match k {
        CharSet::Whitespace => is_whitespace(c),
        CharSet::Only(x) => c == x,
    }
}

/// `s` with all leading characters of the set removed.
pub open spec fn strip_start(s: Seq<char>, k: CharSet) -> Seq<char>
    decreases s.len(),
{
    if s.len() > 0 && in_set(k, s[0]) {
        strip_start(s.drop_first(), k)
    } else {
        s
    }
}

/// `s` with all trailing characters of the set removed.
pub open spec fn strip_end(s: Seq<char>, k: CharSet) -> Seq<char>
    decreases s.len(),
{
    if s.len() > 0 && in_set(k, s.last()) {
        strip_end(s.drop_last(), k)
    } else {
        s
    }
}

/// Both ends stripped: what `str::trim` and `str::trim_matches(c)` compute.
pub open spec fn strip(s: Seq<char>, k: CharSet) -> Seq<char> {
    strip_end(strip_start(s, k), k)
}

pub open spec fn trim(s: Seq<char>) -> Seq<char> {
    strip(s, CharSet::Whitespace)
}

pub fn trim_start_set(s: &[char], k: CharSet) -> (res: Vec<char>)
    ensures
        res@ == strip_start(s@, k),
{
    let n = s.len();
    let mut i: usize = 0;
    proof {
        assert(s@.subrange(0, n as int) =~= s@);
    }
    while i < n && in_set_exec(k, s[i])
        invariant
            n == s@.len(),
            i <= n,
            strip_start(s@, k) == strip_start(s@.subrange(i as int, n as int), k),
        decreases n - i,
    {
        proof {
            let sub = s@.subrange(i as int, n as int);
            assert(sub.drop_first() =~= s@.subrange(i + 1, n as int));
        }
        i = i + 1;
    }
    let mut res: Vec<char> = Vec::new();
    let mut j: usize = i;
    while j < n
        invariant
            n == s@.len(),
            i <= j <= n,
            res@ == s@.subrange(i as int, j as int),
        decreases n - j,
    {
        res.push(s[j]);
        j = j + 1;
        proof {
            assert(res@ =~= s@.subrange(i as int, j as int));
        }
    }
    proof {
        let sub = s@.subrange(i as int, n as int);
        if i < n {
            assert(!in_set(k, sub[0]));
        } else {
            assert(sub.len() == 0);
        }
    }
    res
}

pub fn trim_end_set(s: &[char], k: CharSet) -> (res: Vec<char>)
    ensures
        res@ == strip_end(s@, k),
{
    let n = s.len();
    let mut e: usize = n;
    proof {
        assert(s@.subrange(0, n as int) =~= s@);
    }
    while e > 0 && in_set_exec(k, s[e - 1])
        invariant
            n == s@.len(),
            e <= n,
            strip_end(s@, k) == strip_end(s@.subrange(0, e as int), k),
        decreases e,
    {
        proof {
            let sub = s@.subrange(0, e as int);
            assert(sub.drop_last() =~= s@.subrange(0, e - 1));
        }
        e = e - 1;
    }
    let mut res: Vec<char> = Vec::new();
    let mut j: usize = 0;
    while j < e
        invariant
            n == s@.len(),
            e <= n,
            j <= e,
            res@ == s@.subrange(0, j as int),
        decreases e - j,
    {
        res.push(s[j]);
        j = j + 1;
        proof {
            assert(res@ =~= s@.subrange(0, j as int));
        }
    }
    proof {
        let sub = s@.subrange(0, e as int);
        if e > 0 {
            assert(!in_set(k, sub.last()));
        } else {
            assert(sub.len() == 0);
        }
    }
    res
}

pub fn trim_set(s: &[char], k: CharSet) -> (res: Vec<char>)
    ensures
        res@ == strip(s@, k),
{
    let a = trim_start_set(s, k);
    trim_end_set(&a, k)
}

/// `str::trim` on characters.
pub fn trim_chars(s: &[char]) -> (res: Vec<char>)
    ensures
        res@ == trim(s@),
{
    trim_set(s, CharSet::Whitespace)
}


// ---------------------------------------------------------------------------
// Prefixes, suffixes, substrings
// ---------------------------------------------------------------------------

pub open spec fn has_prefix(s: Seq<char>, t: Seq<char>) -> bool {
    t.len() <= s.len() && s.subrange(0, t.len() as int) == t
}

pub open spec fn has_suffix(s: Seq<char>, t: Seq<char>) -> bool {
    t.len() <= s.len() && s.subrange(s.len() - t.len(), s.len() as int) == t
}

pub open spec fn occurs_at(s: Seq<char>, t: Seq<char>, i: int) -> bool {
    0 <= i && i + t.len() <= s.len() && s.subrange(i, i + t.len()) == t
}

/// `t` occurs somewhere in `s`, as `str::contains` tests.
pub open spec fn has_sub(s: Seq<char>, t: Seq<char>) -> bool {
    exists|i: int| occurs_at(s, t, i)
}

pub fn matches_at(s: &[char], t: &[char], i: usize) -> (res: bool)
    requires
        i <= s@.len(),
    ensures
        res == occurs_at(s@, t@, i as int),
{
    let n = s.len();
    if t.len() > n - i {
        return false;
    }
    let mut j: usize = 0;
    while j < t.len()
        invariant
            n == s@.len(),
            i <= s@.len(),
            i + t@.len() <= s@.len(),
            j <= t@.len(),
            forall|k: int| 0 <= k < j ==> s@[i + k] == t@[k],
        decreases t@.len() - j,
    {
        assert(i + j < n);
        if s[i + j] != t[j] {
            proof {
                assert(s@.subrange(i as int, i + t@.len())[j as int] != t@[j as int]);
            }
            return false;
        }
        j = j + 1;
    }
    proof {
        assert(s@.subrange(i as int, i + t@.len()) =~= t@);
    }
    true
}

pub fn starts_with(s: &[char], t: &[char]) -> (res: bool)
    ensures
        res == has_prefix(s@, t@),
{
    matches_at(s, t, 0)
}

pub fn ends_with(s: &[char], t: &[char]) -> (res: bool)
    ensures
        res == has_suffix(s@, t@),
{
    if t.len() > s.len() {
        return false;
    }
    matches_at(s, t, s.len() - t.len())
}

pub fn contains(s: &[char], t: &[char]) -> (res: bool)
    ensures
        res == has_sub(s@, t@),
{
    let mut i: usize = 0;
    loop
        invariant
            i <= s@.len(),
            forall|k: int| 0 <= k < i ==> !occurs_at(s@, t@, k),
        ensures
            forall|k: int| 0 <= k <= s@.len() ==> !occurs_at(s@, t@, k),
        decreases s@.len() - i,
    {
        if matches_at(s, t, i) {
            return true;
        }
        if i == s.len() {
            break;
        }
        i = i + 1;
    }
    proof {
        assert forall|k: int| !occurs_at(s@, t@, k) by {
            if 0 <= k && k + t@.len() <= s@.len() {
                assert(k <= s@.len());
            }
        }
    }
    false
}

/// Whether `s` contains the character `c`.
pub open spec fn has_char(s: Seq<char>, c: char) -> bool {
    exists|i: int| 0 <= i < s.len() && s[i] == c
}

pub fn contains_char(s: &[char], c: char) -> (res: bool)
    ensures
        res == has_char(s@, c),
{
    let mut i: usize = 0;
    while i < s.len()
        invariant
            i <= s@.len(),
            forall|k: int| 0 <= k < i ==> s@[k] != c,
        decreases s@.len() - i,
    {
        if s[i] == c {
            return true;
        }
        i = i + 1;
    }
    false
}

// ---------------------------------------------------------------------------
// Searching for a character
// ---------------------------------------------------------------------------

/// The first index at or after `k` holding `c`, or -1.
pub open spec fn index_from(s: Seq<char>, c: char, k: int) -> int
    decreases s.len() - k,
{
    if k < 0 || k >= s.len() {
        -1
    } else if s[k] == c {
        k
    } else {
        index_from(s, c, k + 1)
    }
}

/// The first index holding `c`, or -1 (what `str::find` gives for a char).
pub open spec fn find(s: Seq<char>, c: char) -> int {
    index_from(s, c, 0)
}

/// The last index below `k` holding `c`, or -1.
pub open spec fn rindex_below(s: Seq<char>, c: char, k: int) -> int
    decreases k,
{
    if k <= 0 || k > s.len() {
        -1
    } else if s[k - 1] == c {
        k - 1
    } else {
        rindex_below(s, c, k - 1)
    }
}

/// The last index holding `c`, or -1 (what `str::rfind` gives for a char).
pub open spec fn rfind(s: Seq<char>, c: char) -> int {
    rindex_below(s, c, s.len() as int)
}

pub proof fn lemma_index_from_bounds(s: Seq<char>, c: char, k: int)
    ensures
        index_from(s, c, k) == -1 || (k <= index_from(s, c, k) < s.len() && s[index_from(s, c, k)]
            == c && 0 <= k),
        index_from(s, c, k) == -1 ==> forall|j: int| k <= j < s.len() && 0 <= k ==> s[j] != c,
        index_from(s, c, k) != -1 ==> forall|j: int|
            k <= j < index_from(s, c, k) ==> s[j] != c,
    decreases s.len() - k,
{
    if k < 0 || k >= s.len() {
    } else if s[k] == c {
    } else {
        lemma_index_from_bounds(s, c, k + 1);
    }
}

pub proof fn lemma_rindex_bounds(s: Seq<char>, c: char, k: int)
    ensures
        rindex_below(s, c, k) == -1 || (0 <= rindex_below(s, c, k) < k && k <= s.len() && s[rindex_below(s, c, k)] == c),
        rindex_below(s, c, k) == -1 && k <= s.len() ==> forall|j: int| 0 <= j < k ==> s[j] != c,
        rindex_below(s, c, k) != -1 ==> forall|j: int| rindex_below(s, c, k) < j < k ==> s[j] != c,
    decreases k,
{
    if k <= 0 || k > s.len() {
    } else if s[k - 1] == c {
    } else {
        lemma_rindex_bounds(s, c, k - 1);
    }
}

/// Index-based search: `index_from` on a suffix is `index_from` on the whole,
/// shifted.
pub proof fn lemma_index_from_shift(s: Seq<char>, c: char, a: int, k: int)
    requires
        0 <= a <= s.len(),
        0 <= k,
    ensures
        index_from(s.subrange(a, s.len() as int), c, k) == (if index_from(s, c, a + k) == -1 {
            -1
        } else {
            index_from(s, c, a + k) - a
        }),
    decreases s.len() - a - k,
{
    let t = s.subrange(a, s.len() as int);
    if k >= t.len() {
    } else if t[k] == c {
    } else {
        lemma_index_from_shift(s, c, a, k + 1);
    }
}

pub fn find_char(s: &[char], c: char) -> (res: Option<usize>)
    ensures
        match res {
            Some(i) => i as int == find(s@, c),
            None => find(s@, c) == -1,
        },
{
    let mut i: usize = 0;
    while i < s.len()
        invariant
            i <= s@.len(),
            index_from(s@, c, 0) == index_from(s@, c, i as int),
        decreases s@.len() - i,
    {
        if s[i] == c {
            return Some(i);
        }
        i = i + 1;
    }
    None
}

pub fn rfind_char(s: &[char], c: char) -> (res: Option<usize>)
    ensures
        match res {
            Some(i) => i as int == rfind(s@, c),
            None => rfind(s@, c) == -1,
        },
{
    let mut k: usize = s.len();
    while k > 0
        invariant
            k <= s@.len(),
            rfind(s@, c) == rindex_below(s@, c, k as int),
        decreases k,
    {
        if s[k - 1] == c {
            return Some(k - 1);
        }
        k = k - 1;
    }
    None
}

/// A fresh vector holding `s[a..b]`.
pub fn slice_chars(s: &[char], a: usize, b: usize) -> (res: Vec<char>)
    requires
        a <= b <= s@.len(),
    ensures
        res@ == s@.subrange(a as int, b as int),
{
    let mut res: Vec<char> = Vec::new();
    let mut j: usize = a;
    while j < b
        invariant
            a <= j <= b,
            b <= s@.len(),
            res@ == s@.subrange(a as int, j as int),
        decreases b - j,
    {
        res.push(s[j]);
        j = j + 1;
        proof {
            assert(res@ =~= s@.subrange(a as int, j as int));
        }
    }
    res
}

/// `str::split_once` on a character: the parts before and after the first `c`.
pub open spec fn split_once(s: Seq<char>, c: char) -> Option<(Seq<char>, Seq<char>)> {
    let i = find(s, c);
    if i == -1 {
        None
    } else {
        Some((s.subrange(0, i), s.subrange(i + 1, s.len() as int)))
    }
}

pub fn split_once_char(s: &[char], c: char) -> (res: Option<(Vec<char>, Vec<char>)>)
    ensures
        match (res, split_once(s@, c)) {
            (Some((a, b)), Some((x, y))) => a@ == x && b@ == y,
            (None, None) => true,
            _ => false,
        },
{
    proof {
        lemma_index_from_bounds(s@, c, 0);
    }
    match find_char(s, c) {
        Some(i) => {
            proof {
                lemma_index_from_bounds(s@, c, 0);
                assert(i < s@.len());
            }
            let n = s.len();
            let a = slice_chars(s, 0, i);
            let b = slice_chars(s, i + 1, n);
            Some((a, b))
        },
        None => None,
    }
}

/// `str::split` on a character: the pieces between occurrences of `c`.
pub open spec fn split(s: Seq<char>, c: char) -> Seq<Seq<char>>
    decreases s.len(),
{
    let i = find(s, c);
    if i < 0 || i >= s.len() {
        seq![s]
    } else {
        seq![s.subrange(0, i)] + split(s.subrange(i + 1, s.len() as int), c)
    }
}

pub fn split_char(s: &[char], c: char) -> (res: Vec<Vec<char>>)
    ensures
        res@.len() == split(s@, c).len(),
        forall|k: int| 0 <= k < res@.len() ==> #[trigger] res@[k]@ == split(s@, c)[k],
{
    let n = s.len();
    let mut res: Vec<Vec<char>> = Vec::new();
    let mut start: usize = 0;
    let ghost mut pieces: Seq<Seq<char>> = Seq::empty();
    proof {
        assert(s@.subrange(0, n as int) =~= s@);
    }
    loop
        invariant
            n == s@.len(),
            start <= n,
            res@.len() == pieces.len(),
            forall|k: int| 0 <= k < res@.len() ==> #[trigger] res@[k]@ == pieces[k],
            pieces + split(s@.subrange(start as int, n as int), c) == split(s@, c),
        decreases n - start,
    {
        let ghost rest = s@.subrange(start as int, n as int);
        let mut j: usize = start;
        while j < n && s[j] != c
            invariant
                start <= j <= n,
                n == s@.len(),
                forall|k: int| start <= k < j ==> s@[k] != c,
            decreases n - j,
        {
            j = j + 1;
        }
        proof {
            lemma_index_from_shift(s@, c, start as int, 0);
            lemma_index_from_bounds(s@, c, start as int);
            if j < n {
                assert(index_from(s@, c, start as int) == j) by {
                    lemma_index_from_bounds(s@, c, start as int);
                    let r = index_from(s@, c, start as int);
                    if r == -1 {
                        assert(s@[j as int] != c);
                    } else {
                        assert(!(r < j));
                        assert(!(r > j));
                    }
                }
            } else {
                assert(index_from(s@, c, start as int) == -1) by {
                    let r = index_from(s@, c, start as int);
                    if r != -1 {
                        assert(s@[r] != c);
                    }
                }
            }
        }
        let piece = slice_chars(s, start, j);
        res.push(piece);
        if j == n {
            proof {
                assert(rest.subrange(0, rest.len() as int) =~= rest);
                assert(split(rest, c) == seq![rest]);
                assert(piece@ =~= rest);
                pieces = pieces.push(rest);
                assert(pieces =~= pieces.drop_last() + split(rest, c));
            }
            return res;
        }
        proof {
            let i = (j - start) as int;
            assert(find(rest, c) == i);
            assert(rest.subrange(0, i) =~= s@.subrange(start as int, j as int));
            assert(rest.subrange(i + 1, rest.len() as int) =~= s@.subrange(j + 1, n as int));
            assert(split(rest, c) == seq![rest.subrange(0, i)] + split(
                rest.subrange(i + 1, rest.len() as int),
                c,
            ));
            let old_pieces = pieces;
            pieces = pieces.push(piece@);
            assert(pieces + split(s@.subrange(j + 1, n as int), c) =~= old_pieces + split(rest, c));
        }
        start = j + 1;
    }
}

/// Concatenation of `parts` with `sep` between consecutive parts (`join`).
pub open spec fn join(parts: Seq<Seq<char>>, sep: Seq<char>) -> Seq<char>
    decreases parts.len(),
{
    if parts.len() == 0 {
        Seq::empty()
    } else if parts.len() == 1 {
        parts[0]
    } else {
        join(parts.drop_last(), sep) + sep + parts.last()
    }
}

pub fn join_chars(parts: &Vec<Vec<char>>, sep: &[char]) -> (res: Vec<char>)
    ensures
        res@ == join(parts@.map_values(|p: Vec<char>| p@), sep@),
{
    let ghost views = parts@.map_values(|p: Vec<char>| p@);
    let mut res: Vec<char> = Vec::new();
    let mut i: usize = 0;
    while i < parts.len()
        invariant
            i <= parts@.len(),
            views == parts@.map_values(|p: Vec<char>| p@),
            res@ == join(views.take(i as int), sep@),
        decreases parts@.len() - i,
    {
        proof {
            assert(views.take(i + 1).drop_last() =~= views.take(i as int));
        }
        if i > 0 {
            extend_chars(&mut res, sep);
        }
        extend_chars(&mut res, &parts[i]);
        i = i + 1;
    }
    proof {
        assert(views.take(parts@.len() as int) =~= views);
    }
    res
}

// ---------------------------------------------------------------------------
// Decimal numbers
// ---------------------------------------------------------------------------

/// The ASCII digit for `d < 10`.
pub open spec fn digit_char(d: nat) -> char {
    if d == 0 { '0' } else if d == 1 { '1' } else if d == 2 { '2' } else if d == 3 { '3' }
    else if d == 4 { '4' } else if d == 5 { '5' } else if d == 6 { '6' } else if d == 7 { '7' }
    else if d == 8 { '8' } else { '9' }
}

/// The decimal representation of `n`, without leading zeros.
pub open spec fn decimal(n: nat) -> Seq<char>
    decreases n,
{
    if n < 10 {
        seq![digit_char(n)]
    } else {
        decimal(n / 10).push(digit_char(n % 10))
    }
}

fn digit_exec(d: u64) -> (c: char)
    requires
        d < 10,
    ensures
        c == digit_char(d as nat),
{
    if d == 0 { '0' } else if d == 1 { '1' } else if d == 2 { '2' } else if d == 3 { '3' }
    else if d == 4 { '4' } else if d == 5 { '5' } else if d == 6 { '6' } else if d == 7 { '7' }
    else if d == 8 { '8' } else { '9' }
}

/// Decimal formatting of an unsigned integer, as `u64::to_string` gives it.
pub fn decimal_chars(n: u64) -> (res: Vec<char>)
    ensures
        res@ == decimal(n as nat),
    decreases n,
{
    if n < 10 {
        let mut v: Vec<char> = Vec::new();
        v.push(digit_exec(n));
        proof {
            assert(v@ =~= seq![digit_char(n as nat)]);
        }
        v
    } else {
        let mut v = decimal_chars(n / 10);
        v.push(digit_exec(n % 10));
        v
    }
}

// ---------------------------------------------------------------------------
// Parsing signed integers (`str::parse::<i64>`)
// ---------------------------------------------------------------------------

pub open spec fn is_digit(c: char) -> bool {
    '0' <= c && c <= '9'
}

pub open spec fn digit_value(c: char) -> nat {
    ((c as u32) - 48) as nat
}

/// The value of a string of decimal digits.
pub open spec fn digits_value(s: Seq<char>) -> nat
    decreases s.len(),
{
    if s.len() == 0 {
        0
    } else {
        digits_value(s.drop_last()) * 10 + digit_value(s.last())
    }
}

pub open spec fn all_digits(s: Seq<char>) -> bool {
    forall|i: int| 0 <= i < s.len() ==> is_digit(#[trigger] s[i])
}

/// What `str::parse::<i64>` accepts and returns: an optional sign, then one or
/// more ASCII digits, with the value in range.
pub open spec fn parse_i64(s: Seq<char>) -> Option<i64> {
    let neg = s.len() > 0 && s[0] == '-';
    let signed = s.len() > 0 && (s[0] == '-' || s[0] == '+');
    let ds = if signed { s.drop_first() } else { s };
    if ds.len() == 0 || !all_digits(ds) {
        None
    } else {
        let v: int = if neg { -(digits_value(ds) as int) } else { digits_value(ds) as int };
        if i64::MIN <= v && v <= i64::MAX {
            Some(v as i64)
        } else {
            None
        }
    }
}

pub proof fn lemma_digits_value_mono(s: Seq<char>, k: int)
    requires
        0 <= k <= s.len(),
        all_digits(s),
    ensures
        digits_value(s.subrange(0, k)) <= digits_value(s),
    decreases s.len() - k,
{
    if k < s.len() {
        lemma_digits_value_mono(s, k + 1);
        let a = s.subrange(0, k + 1);
        assert(a.drop_last() =~= s.subrange(0, k));
    } else {
        assert(s.subrange(0, k) =~= s);
    }
}

pub fn parse_i64_chars(s: &[char]) -> (res: Option<i64>)
    ensures
        res == parse_i64(s@),
{
    let n = s.len();
    let neg = n > 0 && s[0] == '-';
    let signed = n > 0 && (s[0] == '-' || s[0] == '+');
    let start: usize = if signed { 1 } else { 0 };
    let ghost ds = if signed { s@.drop_first() } else { s@ };
    proof {
        assert(ds =~= s@.subrange(start as int, n as int));
        assert(ds == (if s@.len() > 0 && (s@[0] == '-' || s@[0] == '+') {
            s@.drop_first()
        } else {
            s@
        }));
    }
    if start == n {
        return None;
    }
    // magnitude accumulated so far; exceeding 2^63 means out of range
    let limit: u64 = 0x8000_0000_0000_0000;
    let mut acc: u64 = 0;
    let mut i: usize = start;
    while i < n
        invariant
            start <= i <= n,
            n == s@.len(),
            start < n,
            ds == s@.subrange(start as int, n as int),
            ds == (if s@.len() > 0 && (s@[0] == '-' || s@[0] == '+') {
                s@.drop_first()
            } else {
                s@
            }),
            neg == (s@.len() > 0 && s@[0] == '-'),
            forall|k: int| start <= k < i ==> is_digit(#[trigger] s@[k]),
            acc as nat == digits_value(s@.subrange(start as int, i as int)),
            acc <= limit,
            limit == 0x8000_0000_0000_0000u64,
        decreases n - i,
    {
        let c = s[i];
        if !('0' <= c && c <= '9') {
            proof {
                assert(ds[i - start] == s@[i as int]);
                assert(!is_digit(ds[i - start]));
                assert(!all_digits(ds));
                assert(parse_i64(s@).is_none());
            }
            return None;
        }
        let d = (c as u32 - 48) as u64;
        proof {
            let pre = s@.subrange(start as int, i + 1);
            assert(pre.drop_last() =~= s@.subrange(start as int, i as int));
        }
        let m: u128 = acc as u128 * 10 + d as u128;
        if m > limit as u128 {
            // the final value is at least this prefix, which is already too large
            proof {
                let pre = s@.subrange(start as int, i + 1);
                assert(pre.last() == c);
                assert(digits_value(pre) == digits_value(pre.drop_last()) * 10 + digit_value(c));
                assert(digits_value(pre) == m);
                if all_digits(ds) {
                    lemma_digits_value_mono(ds, i + 1 - start);
                    assert(ds.subrange(0, i + 1 - start) =~= pre);
                    assert(digits_value(ds) > limit);
                    assert(limit == 0x8000_0000_0000_0000u64);
                    assert(-(digits_value(ds) as int) < i64::MIN);
                    assert(digits_value(ds) as int > i64::MAX);
                }
                assert(parse_i64(s@).is_none());
            }
            return None;
        }
        acc = m as u64;
        i = i + 1;
    }
    proof {
        assert(s@.subrange(start as int, n as int) == ds);
        assert(all_digits(ds));
    }
    if neg {
        if acc == limit {
            Some(i64::MIN)
        } else {
            Some(-(acc as i64))
        }
    } else {
        if acc == limit {
            None
        } else {
            Some(acc as i64)
        }
    }
}

// ---------------------------------------------------------------------------
// Unicode case mapping and character classes (std)
// ---------------------------------------------------------------------------

/// An ASCII character: below 128.
pub open spec fn is_ascii_char(c: char) -> bool {
    (c as u32) < 128
}

/// Every character is ASCII.
pub open spec fn all_ascii(s: Seq<char>) -> bool {
    forall|i: int| 0 <= i < s.len() ==> is_ascii_char(#[trigger] s[i])
}

/// The ASCII case mapping: `a`..`z` to `A`..`Z`, every other character kept.
pub open spec fn ascii_upper(c: char) -> char {
    if 'a' <= c && c <= 'z' {
        ((c as u32) - 32) as char
    } else {
        c
    }
}

/// The ASCII case mapping: `A`..`Z` to `a`..`z`, every other character kept.
pub open spec fn ascii_lower(c: char) -> char {
    if 'A' <= c && c <= 'Z' {
        ((c as u32) + 32) as char
    } else {
        c
    }
}

/// What `str::to_lowercase` returns for a string with these characters.
pub uninterp spec fn spec_lowercase(s: Seq<char>) -> Seq<char>;

/// Calls `str::to_lowercase`. Claimed: the result is `spec_lowercase` of the
/// input, and, as the Unicode case mapping that std documents maps ASCII letters
/// to their ASCII case and keeps other ASCII characters, a string of ASCII
/// characters is lowercased character by character.
#[verifier::external_body]
pub(crate) fn to_lowercase_chars(s: &[char]) -> (res: Vec<char>)
    ensures
        res@ == spec_lowercase(s@),
        all_ascii(s@) ==> res@ == s@.map_values(|c: char| ascii_lower(c)),
{
    s.iter().collect::<String>().to_lowercase().chars().collect()
}

/// What `char::to_uppercase` yields for a character.
pub uninterp spec fn spec_char_uppercase(c: char) -> Seq<char>;

/// Calls `char::to_uppercase`. Claimed: the characters it yields are
/// `spec_char_uppercase(c)`; for an ASCII character, its ASCII uppercase alone
/// (a character without an uppercase mapping yields itself, as documented).
#[verifier::external_body]
pub(crate) fn char_to_uppercase(c: char) -> (res: Vec<char>)
    ensures
        res@ == spec_char_uppercase(c),
        is_ascii_char(c) ==> res@ == seq![ascii_upper(c)],
{
    c.to_uppercase().collect()
}

/// What `char::to_lowercase` yields for a character.
pub uninterp spec fn spec_char_lowercase(c: char) -> Seq<char>;

/// Calls `char::to_lowercase`. Claimed: the characters it yields are
/// `spec_char_lowercase(c)`, and there is at least one (the documentation
/// says a character without a lowercase form maps to itself).
/// For an ASCII character it yields its ASCII lowercase alone.
#[verifier::external_body]
pub(crate) fn char_to_lowercase(c: char) -> (res: Vec<char>)
    ensures
        res@ == spec_char_lowercase(c),
        res@.len() >= 1,
        is_ascii_char(c) ==> res@ == seq![ascii_lower(c)],
{
    c.to_lowercase().collect()
}

/// What `char::is_alphanumeric` answers.
pub uninterp spec fn spec_is_alphanumeric(c: char) -> bool;

/// Calls `char::is_alphanumeric`. Claimed: the answer is
/// `spec_is_alphanumeric(c)`; among ASCII characters, exactly the letters and
/// digits are alphanumeric.
#[verifier::external_body]
pub(crate) fn is_alphanumeric(c: char) -> (res: bool)
    ensures
        res == spec_is_alphanumeric(c),
        is_ascii_char(c) ==> (res <==> ('a' <= c <= 'z' || 'A' <= c <= 'Z' || '0' <= c <= '9')),
{
    c.is_alphanumeric()
}

/// What `char::is_uppercase` answers.
pub uninterp spec fn spec_is_uppercase(c: char) -> bool;

/// Calls `char::is_uppercase`. Claimed: the answer is `spec_is_uppercase(c)`;
/// among ASCII characters, exactly `A` to `Z` are uppercase.
#[verifier::external_body]
pub(crate) fn is_uppercase(c: char) -> (res: bool)
    ensures
        res == spec_is_uppercase(c),
        is_ascii_char(c) ==> (res <==> 'A' <= c <= 'Z'),
{
    c.is_uppercase()
}

// ---------------------------------------------------------------------------
// Last occurrence of a substring (what `rsplit(pat).next()` depends on)
// ---------------------------------------------------------------------------

/// The largest `i < k` at which `t` occurs in `s`, or -1.
pub open spec fn occurrence_below(s: Seq<char>, t: Seq<char>, k: int) -> int
    decreases k,
{
    if k <= 0 {
        -1
    } else if occurs_at(s, t, k - 1) {
        k - 1
    } else {
        occurrence_below(s, t, k - 1)
    }
}

/// The last place where `t` occurs in `s`, or -1.
pub open spec fn last_occurrence(s: Seq<char>, t: Seq<char>) -> int {
    occurrence_below(s, t, s.len() + 1int)
}

/// The part of `s` after the last occurrence of `t` (all of `s` if none):
/// the first item that `s.rsplit(t)` yields.
pub open spec fn after_last(s: Seq<char>, t: Seq<char>) -> Seq<char> {
    let i = last_occurrence(s, t);
    if i < 0 {
        s
    } else {
        s.subrange(i + t.len(), s.len() as int)
    }
}

pub proof fn lemma_occurrence_below(s: Seq<char>, t: Seq<char>, k: int)
    ensures
        occurrence_below(s, t, k) == -1 || (0 <= occurrence_below(s, t, k) < k && occurs_at(
            s,
            t,
            occurrence_below(s, t, k),
        )),
    decreases k,
{
    if k > 0 && !occurs_at(s, t, k - 1) {
        lemma_occurrence_below(s, t, k - 1);
    }
}

pub fn after_last_chars(s: &[char], t: &[char]) -> (res: Vec<char>)
    ensures
        res@ == after_last(s@, t@),
{
    let n = s.len();
    let mut k: usize = n;
    // k + 1 is the bound searched below
    loop
        invariant
            n == s@.len(),
            k <= n,
            last_occurrence(s@, t@) == occurrence_below(s@, t@, k + 1),
        decreases k,
    {
        if matches_at(s, t, k) {
            proof {
                assert(occurs_at(s@, t@, k as int));
            }
            return slice_chars(s, k + t.len(), n);
        }
        if k == 0 {
            proof {
                assert(occurrence_below(s@, t@, 0) == -1);
                assert(s@.subrange(0, n as int) =~= s@);
            }
            return slice_chars(s, 0, n);
        }
        k = k - 1;
    }
}

} // verus!
