//! The argument grammar of the model and schema attributes, read from the
//! text of their token streams: pieces separated by commas, each a path or
//! `key = value`, where a value is a string, integer or boolean literal.
//!
//! A comma inside a string literal separates nothing. String literals have
//! their one-character escapes decoded; integer literals are decimal, may hold
//! underscores, and may end in the name of an integer type.

use vstd::prelude::*;

use crate::parser::without_spaces;
use crate::text::{
    after_last, after_last_chars, all_digits, chars_eq, chars_of, contains_char, digits_value,
    has_char, is_digit, slice_chars, split, split_once, split_once_char, trim,
    trim_chars,
};

verus! {

// ---------------------------------------------------------------------------
// Pieces
// ---------------------------------------------------------------------------

/// The state of a scan of an argument list: the finished pieces, the piece
/// being read, whether the scan is inside a string literal, and whether the
/// previous character was a backslash inside one.
pub struct ScanState {
    pub done: Seq<Seq<char>>,
    pub cur: Seq<char>,
    pub in_str: bool,
    pub escaped: bool,
}

/// The scan of the first `n` characters: a comma outside a string literal
/// ends a piece.
pub open spec fn scan(t: Seq<char>, n: int) -> ScanState
    decreases n,
{
    if n <= 0 {
        ScanState { done: Seq::empty(), cur: Seq::empty(), in_str: false, escaped: false }
    } else {
        let st = scan(t, n - 1);
        let c = t[n - 1];
        if st.in_str {
            if st.escaped {
                ScanState { cur: st.cur.push(c), escaped: false, ..st }
            } else if c == '\\' {
                ScanState { cur: st.cur.push(c), escaped: true, ..st }
            } else if c == '"' {
                ScanState { cur: st.cur.push(c), in_str: false, ..st }
            } else {
                ScanState { cur: st.cur.push(c), ..st }
            }
        } else if c == ',' {
            ScanState { done: st.done.push(st.cur), cur: Seq::empty(), ..st }
        } else if c == '"' {
            ScanState { cur: st.cur.push(c), in_str: true, ..st }
        } else {
            ScanState { cur: st.cur.push(c), ..st }
        }
    }
}

/// The pieces of an argument list: the text between commas outside string
/// literals, trimmed.
pub open spec fn arg_pieces(t: Seq<char>) -> Seq<Seq<char>> {
    let st = scan(t, t.len() as int);
    st.done.push(st.cur).map_values(|p: Seq<char>| trim(p))
}

/// The texts of a list of character vectors.
pub open spec fn texts(v: Seq<Vec<char>>) -> Seq<Seq<char>> {
    v.map_values(|p: Vec<char>| p@)
}

/// Only the last piece may be empty (an empty list, or a trailing comma).
pub open spec fn pieces_well_placed(ps: Seq<Seq<char>>) -> bool {
    forall|i: int| 0 <= i < ps.len() - 1 ==> (#[trigger] ps[i]).len() > 0
}

pub fn arg_pieces_exec(t: &[char]) -> (res: Vec<Vec<char>>)
    ensures
        res@.len() == arg_pieces(t@).len(),
        forall|k: int| 0 <= k < res@.len() ==> #[trigger] res@[k]@ == arg_pieces(t@)[k],
{
    let mut done: Vec<Vec<char>> = Vec::new();
    let mut cur: Vec<char> = Vec::new();
    let mut in_str = false;
    let mut escaped = false;
    let mut i: usize = 0;
    while i < t.len()
        invariant
            i <= t@.len(),
            ({
                let st = scan(t@, i as int);
                texts(done@) == st.done && cur@ == st.cur && in_str == st.in_str && escaped == st.escaped
            }),
        decreases t@.len() - i,
    {
        let c = t[i];
        let ghost d0 = done@;
        if in_str {
            cur.push(c);
            if escaped {
                escaped = false;
            } else if c == '\\' {
                escaped = true;
            } else if c == '"' {
                in_str = false;
            }
        } else if c == ',' {
            let piece = cur;
            done.push(piece);
            cur = Vec::new();
            proof {
                assert(texts(done@) =~= texts(d0).push(scan(t@, i as int).cur));
            }
        } else {
            cur.push(c);
            if c == '"' {
                in_str = true;
            }
        }
        i = i + 1;
    }
    let ghost d1 = done@;
    done.push(cur);
    proof {
        assert(texts(done@) =~= texts(d1).push(scan(t@, t@.len() as int).cur));
    }
    let mut res: Vec<Vec<char>> = Vec::new();
    let mut k: usize = 0;
    while k < done.len()
        invariant
            k <= done@.len(),
            texts(done@) == ({
                let st = scan(t@, t@.len() as int);
                st.done.push(st.cur)
            }),
            res@.len() == k,
            forall|j: int| 0 <= j < k ==> #[trigger] res@[j]@ == arg_pieces(t@)[j],
        decreases done@.len() - k,
    {
        proof {
            assert(texts(done@)[k as int] == done@[k as int]@);
        }
        res.push(trim_chars(&done[k]));
        k = k + 1;
    }
    res
}

pub fn pieces_well_placed_exec(ps: &Vec<Vec<char>>) -> (res: bool)
    ensures
        res == pieces_well_placed(texts(ps@)),
{
    let ghost m = texts(ps@);
    let n = ps.len();
    if n == 0 {
        return true;
    }
    let mut i: usize = 0;
    while i < n - 1
        invariant
            n == ps@.len(),
            n > 0,
            m == texts(ps@),
            i <= n - 1,
            forall|j: int| 0 <= j < i ==> (#[trigger] m[j]).len() > 0,
        decreases ps@.len() - i,
    {
        if ps[i].len() == 0 {
            proof {
                assert(m[i as int].len() == 0);
            }
            return false;
        }
        i = i + 1;
    }
    true
}

/// A piece: a bare path, or a `key = value` pair.
pub enum PieceModel {
    Bare(Seq<char>),
    Pair(Seq<char>, Seq<char>),
}

pub enum Piece {
    Bare(Vec<char>),
    Pair(Vec<char>, Vec<char>),
}

impl View for Piece {
    type V = PieceModel;

    open spec fn view(&self) -> PieceModel {
        match self {
            Piece::Bare(p) => PieceModel::Bare(p@),
            Piece::Pair(k, v) => PieceModel::Pair(k@, v@),
        }
    }
}

/// A piece split at its first `=`, key and value trimmed.
pub open spec fn piece_of(p: Seq<char>) -> PieceModel {
    match split_once(p, '=') {
        Some((k, v)) => PieceModel::Pair(trim(k), trim(v)),
        None => PieceModel::Bare(p),
    }
}

pub fn piece_of_exec(p: &[char]) -> (res: Piece)
    ensures
        res@ == piece_of(p@),
{
    match split_once_char(p, '=') {
        Some((k, v)) => Piece::Pair(trim_chars(&k), trim_chars(&v)),
        None => Piece::Bare(crate::text::copy_chars(p)),
    }
}

// ---------------------------------------------------------------------------
// Identifiers and paths
// ---------------------------------------------------------------------------

pub open spec fn ident_char(c: char) -> bool {
    ('a' <= c && c <= 'z') || ('A' <= c && c <= 'Z') || ('0' <= c && c <= '9') || c == '_'
}

fn ident_char_exec(c: char) -> (res: bool)
    ensures
        res == ident_char(c),
{
    ('a' <= c && c <= 'z') || ('A' <= c && c <= 'Z') || ('0' <= c && c <= '9') || c == '_'
}

/// An identifier: letters, digits and `_`, not starting with a digit.
pub open spec fn is_ident(v: Seq<char>) -> bool {
    &&& v.len() > 0
    &&& !is_digit(v[0])
    &&& forall|i: int| 0 <= i < v.len() ==> ident_char(#[trigger] v[i])
}

pub fn is_ident_exec(v: &[char]) -> (res: bool)
    ensures
        res == is_ident(v@),
{
    if v.len() == 0 || ('0' <= v[0] && v[0] <= '9') {
        return false;
    }
    let mut i: usize = 0;
    while i < v.len()
        invariant
            i <= v@.len(),
            forall|j: int| 0 <= j < i ==> ident_char(#[trigger] v@[j]),
        decreases v@.len() - i,
    {
        if !ident_char_exec(v[i]) {
            return false;
        }
        i = i + 1;
    }
    true
}

pub fn spaceless_exec(s: &[char]) -> (res: Vec<char>)
    ensures
        res@ == without_spaces(s@),
{
    let mut out: Vec<char> = Vec::new();
    let mut i: usize = 0;
    while i < s.len()
        invariant
            i <= s@.len(),
            out@ == without_spaces(s@.take(i as int)),
        decreases s@.len() - i,
    {
        proof {
            assert(s@.take(i + 1).drop_last() =~= s@.take(i as int));
        }
        if s[i] != ' ' {
            out.push(s[i]);
        }
        i = i + 1;
    }
    proof {
        assert(s@.take(s@.len() as int) =~= s@);
    }
    out
}

/// A path: identifiers joined by `::` (spaces between tokens allowed).
pub open spec fn is_path(v: Seq<char>) -> bool {
    let s = without_spaces(v);
    &&& s.len() > 0
    &&& s[0] != ':'
    &&& s.last() != ':'
    &&& forall|i: int| 0 <= i < s.len() ==> ident_char(#[trigger] s[i]) || s[i] == ':'
}

pub fn is_path_exec(v: &[char]) -> (res: bool)
    ensures
        res == is_path(v@),
{
    let s = spaceless_exec(v);
    if s.len() == 0 || s[0] == ':' || s[s.len() - 1] == ':' {
        return false;
    }
    let mut i: usize = 0;
    while i < s.len()
        invariant
            s@ == without_spaces(v@),
            i <= s@.len(),
            forall|j: int| 0 <= j < i ==> ident_char(#[trigger] s@[j]) || s@[j] == ':',
        decreases s@.len() - i,
    {
        if !ident_char_exec(s[i]) && s[i] != ':' {
            proof {
                let sp = without_spaces(v@);
                assert(sp[i as int] == s@[i as int]);
                assert(!(ident_char(sp[i as int]) || sp[i as int] == ':'));
            }
            return false;
        }
        i = i + 1;
    }
    true
}

/// The last segment of a path.
pub open spec fn last_segment(v: Seq<char>) -> Seq<char> {
    after_last(without_spaces(v), "::"@)
}

pub fn last_segment_exec(v: &[char]) -> (res: Vec<char>)
    ensures
        res@ == last_segment(v@),
{
    let s = spaceless_exec(v);
    let sep = chars_of("::");
    after_last_chars(&s, &sep)
}

/// The path has a single segment.
pub open spec fn single_segment(v: Seq<char>) -> bool {
    !has_char(without_spaces(v), ':')
}

pub fn single_segment_exec(v: &[char]) -> (res: bool)
    ensures
        res == single_segment(v@),
{
    let s = spaceless_exec(v);
    !contains_char(&s, ':')
}

// ---------------------------------------------------------------------------
// Literals
// ---------------------------------------------------------------------------

/// A literal value; an integer as whether it is negative, and its magnitude.
pub enum LitModel {
    Str(Seq<char>),
    Int(bool, nat),
    Bool(bool),
}

/// A literal value; an integer as its sign and its digits.
pub enum Lit {
    Str(Vec<char>),
    Int(bool, Vec<char>),
    Bool(bool),
}

impl View for Lit {
    type V = LitModel;

    open spec fn view(&self) -> LitModel {
        match self {
            Lit::Str(s) => LitModel::Str(s@),
            Lit::Int(neg, ds) => LitModel::Int(*neg, digits_value(ds@)),
            Lit::Bool(b) => LitModel::Bool(*b),
        }
    }
}

/// The character a backslash escape stands for, for the escapes of Rust's
/// string literals that take one character after the backslash.
pub open spec fn escaped_char(c: char) -> Option<char> {
    if c == 'n' {
        Some('\n')
    } else if c == 't' {
        Some('\t')
    } else if c == 'r' {
        Some('\r')
    } else if c == '0' {
        Some('\0')
    } else if c == '\\' {
        Some('\\')
    } else if c == '"' {
        Some('"')
    } else if c == '\'' {
        Some('\'')
    } else {
        None
    }
}

fn escaped_char_exec(c: char) -> (res: Option<char>)
    ensures
        res == escaped_char(c),
{
    if c == 'n' {
        Some('\n')
    } else if c == 't' {
        Some('\t')
    } else if c == 'r' {
        Some('\r')
    } else if c == '0' {
        Some('\0')
    } else if c == '\\' {
        Some('\\')
    } else if c == '"' {
        Some('"')
    } else if c == '\'' {
        Some('\'')
    } else {
        None
    }
}

/// `p` followed by the text of `o`, if there is one.
pub open spec fn prefixed(p: Seq<char>, o: Option<Seq<char>>) -> Option<Seq<char>> {
    match o {
        Some(r) => Some(p + r),
        None => None,
    }
}

/// The text that the body of a string literal (what stands between its
/// quotes) stands for, with its escapes decoded; `None` where the body holds
/// a bare quote, or a backslash that starts no known escape.
pub open spec fn unescape(s: Seq<char>) -> Option<Seq<char>>
    decreases s.len(),
{
    if s.len() == 0 {
        Some(Seq::empty())
    } else if s[0] == '"' {
        None
    } else if s[0] == '\\' {
        if s.len() < 2 {
            None
        } else {
            match escaped_char(s[1]) {
                Some(c) => prefixed(seq![c], unescape(s.subrange(2, s.len() as int))),
                None => None,
            }
        }
    } else {
        prefixed(seq![s[0]], unescape(s.drop_first()))
    }
}

fn unescape_exec(s: &[char]) -> (res: Option<Vec<char>>)
    ensures
        match res {
            Some(r) => unescape(s@) == Some(r@),
            None => unescape(s@) is None,
        },
{
    let mut out: Vec<char> = Vec::new();
    let mut i: usize = 0;
    proof {
        assert(s@.subrange(0, s@.len() as int) =~= s@);
        match unescape(s@) {
            Some(r) => {
                assert(out@ + r =~= r);
            },
            None => {},
        }
    }
    while i < s.len()
        invariant
            i <= s@.len(),
            unescape(s@) == prefixed(out@, unescape(s@.subrange(i as int, s@.len() as int))),
        decreases s@.len() - i,
    {
        let ghost rest = s@.subrange(i as int, s@.len() as int);
        let c = s[i];
        if c == '"' {
            return None;
        } else if c == '\\' {
            if i + 1 >= s.len() {
                return None;
            }
            match escaped_char_exec(s[i + 1]) {
                Some(e) => {
                    proof {
                        assert(rest.subrange(2, rest.len() as int) =~= s@.subrange(
                            i + 2,
                            s@.len() as int,
                        ));
                        let tail = unescape(s@.subrange(i + 2, s@.len() as int));
                        match tail {
                            Some(r) => {
                                assert(out@ + (seq![e] + r) =~= out@.push(e) + r);
                            },
                            None => {},
                        }
                    }
                    out.push(e);
                    i = i + 2;
                },
                None => {
                    return None;
                },
            }
        } else {
            proof {
                assert(rest.drop_first() =~= s@.subrange(i + 1, s@.len() as int));
                let tail = unescape(s@.subrange(i + 1, s@.len() as int));
                match tail {
                    Some(r) => {
                        assert(out@ + (seq![c] + r) =~= out@.push(c) + r);
                    },
                    None => {},
                }
            }
            out.push(c);
            i = i + 1;
        }
    }
    proof {
        assert(s@.subrange(i as int, s@.len() as int) =~= Seq::<char>::empty());
        assert(out@ + Seq::<char>::empty() =~= out@);
    }
    Some(out)
}

/// A string literal: text between two quotes whose escapes all decode.
pub open spec fn is_str_lit(v: Seq<char>) -> bool {
    v.len() >= 2 && v[0] == '"' && v.last() == '"' && unescape(v.subrange(1, v.len() - 1))
        is Some
}

/// The end of the run of digits and underscores that starts at `i`.
pub open spec fn run_end(s: Seq<char>, i: int) -> int
    decreases s.len() - i,
{
    if 0 <= i < s.len() && (is_digit(s[i]) || s[i] == '_') {
        run_end(s, i + 1)
    } else {
        i
    }
}

/// The width part of an integer type's name.
pub open spec fn int_width(w: Seq<char>) -> bool {
    ||| w =~= seq!['8']
    ||| w =~= seq!['1', '6']
    ||| w =~= seq!['3', '2']
    ||| w =~= seq!['6', '4']
    ||| w =~= seq!['1', '2', '8']
    ||| w =~= seq!['s', 'i', 'z', 'e']
}

/// The name of an integer type, as it may stand after an integer literal.
pub open spec fn is_int_suffix(x: Seq<char>) -> bool {
    x.len() >= 2 && (x[0] == 'u' || x[0] == 'i') && int_width(x.drop_first())
}

/// A text with its underscores left out.
pub open spec fn without_underscores(s: Seq<char>) -> Seq<char>
    decreases s.len(),
{
    if s.len() == 0 {
        s
    } else if s.last() == '_' {
        without_underscores(s.drop_last())
    } else {
        without_underscores(s.drop_last()).push(s.last())
    }
}

/// The sign and digits of a decimal integer literal: a `-` (which spaces may
/// follow), a digit, more digits and underscores, and the name of an integer
/// type or nothing; the digits are those of the literal without underscores.
pub open spec fn int_parts(v: Seq<char>) -> Option<(bool, Seq<char>)> {
    let neg = v.len() > 0 && v[0] == '-';
    let t = if neg {
        trim(v.drop_first())
    } else {
        v
    };
    let k = run_end(t, 0);
    if t.len() > 0 && is_digit(t[0]) && (k == t.len() || is_int_suffix(
        t.subrange(k, t.len() as int),
    )) {
        Some((neg, without_underscores(t.take(k))))
    } else {
        None
    }
}

/// The literal a value's text is, if it is one.
pub open spec fn literal(v: Seq<char>) -> Option<LitModel> {
    if is_str_lit(v) {
        Some(LitModel::Str(unescape(v.subrange(1, v.len() - 1)).unwrap()))
    } else if v == "true"@ {
        Some(LitModel::Bool(true))
    } else if v == "false"@ {
        Some(LitModel::Bool(false))
    } else {
        match int_parts(v) {
            Some((neg, ds)) => Some(LitModel::Int(neg, digits_value(ds))),
            None => None,
        }
    }
}

fn int_width_exec(w: &[char]) -> (res: bool)
    ensures
        res == int_width(w@),
{
    let n = w.len();
    if n == 1 {
        w[0] == '8'
    } else if n == 2 {
        (w[0] == '1' && w[1] == '6') || (w[0] == '3' && w[1] == '2') || (w[0] == '6' && w[1]
            == '4')
    } else if n == 3 {
        w[0] == '1' && w[1] == '2' && w[2] == '8'
    } else if n == 4 {
        w[0] == 's' && w[1] == 'i' && w[2] == 'z' && w[3] == 'e'
    } else {
        false
    }
}

/// The digits of an integer literal's text, if it is one.
fn int_parts_exec(v: &[char]) -> (res: Option<(bool, Vec<char>)>)
    ensures
        match (res, int_parts(v@)) {
            (Some((neg, ds)), Some((m_neg, m_ds))) => neg == m_neg && ds@ == m_ds,
            (None, None) => true,
            _ => false,
        },
        res matches Some((_, ds)) ==> all_digits(ds@),
{
    let n = v.len();
    let neg = n > 0 && v[0] == '-';
    let t = if neg {
        let rest = slice_chars(v, 1, n);
        proof {
            assert(rest@ =~= v@.drop_first());
        }
        trim_chars(&rest)
    } else {
        crate::text::copy_chars(v)
    };
    let m = t.len();
    let mut k: usize = 0;
    while k < m && (('0' <= t[k] && t[k] <= '9') || t[k] == '_')
        invariant
            k <= m == t@.len(),
            run_end(t@, 0) == run_end(t@, k as int),
            forall|j: int| 0 <= j < k ==> is_digit(#[trigger] t@[j]) || t@[j] == '_',
        decreases m - k,
    {
        k = k + 1;
    }
    if m == 0 || !('0' <= t[0] && t[0] <= '9') {
        return None;
    }
    if k < m {
        let x = slice_chars(&t, k, m);
        if !(x.len() >= 2 && (x[0] == 'u' || x[0] == 'i')) {
            return None;
        }
        let w = slice_chars(&x, 1, x.len());
        proof {
            assert(w@ =~= x@.drop_first());
        }
        if !int_width_exec(&w) {
            return None;
        }
    }
    let mut ds: Vec<char> = Vec::new();
    let mut i: usize = 0;
    while i < k
        invariant
            i <= k <= m == t@.len(),
            forall|j: int| 0 <= j < k ==> is_digit(#[trigger] t@[j]) || t@[j] == '_',
            ds@ == without_underscores(t@.take(i as int)),
            all_digits(ds@),
        decreases k - i,
    {
        proof {
            assert(t@.take(i + 1).drop_last() =~= t@.take(i as int));
            assert(t@.take(i + 1).last() == t@[i as int]);
        }
        if t[i] != '_' {
            ds.push(t[i]);
        }
        i = i + 1;
    }
    Some((neg, ds))
}

pub fn literal_exec(v: &[char]) -> (res: Option<Lit>)
    ensures
        match (res, literal(v@)) {
            (Some(l), Some(m)) => l@ == m,
            (None, None) => true,
            _ => false,
        },
        res matches Some(Lit::Int(_, ds)) ==> all_digits(ds@),
{
    let n = v.len();
    if n >= 2 && v[0] == '"' && v[n - 1] == '"' {
        let inner = slice_chars(v, 1, n - 1);
        if let Some(text) = unescape_exec(&inner) {
            return Some(Lit::Str(text));
        }
    }
    proof {
        reveal_strlit("true");
        reveal_strlit("false");
    }
    let t = chars_of("true");
    let f = chars_of("false");
    if chars_eq(v, &t) {
        return Some(Lit::Bool(true));
    }
    if chars_eq(v, &f) {
        return Some(Lit::Bool(false));
    }
    match int_parts_exec(v) {
        Some((neg, ds)) => Some(Lit::Int(neg, ds)),
        None => None,
    }
}

/// A digit string's value as a `u64`, when it fits.
pub fn digits_u64(ds: &[char]) -> (res: Option<u64>)
    requires
        all_digits(ds@),
    ensures
        match res {
            Some(x) => x == digits_value(ds@),
            None => digits_value(ds@) > u64::MAX,
        },
{
    let mut acc: u64 = 0;
    let mut i: usize = 0;
    while i < ds.len()
        invariant
            all_digits(ds@),
            i <= ds@.len(),
            acc == digits_value(ds@.take(i as int)),
        decreases ds@.len() - i,
    {
        proof {
            assert(ds@.take(i + 1).drop_last() =~= ds@.take(i as int));
            assert(is_digit(ds@[i as int]));
        }
        let d = (ds[i] as u32 - 48) as u64;
        match acc.checked_mul(10) {
            Some(m) => match m.checked_add(d) {
                Some(a) => {
                    acc = a;
                },
                None => {
                    proof {
                        crate::text::lemma_digits_value_mono(ds@, i + 1);
                        assert(ds@.subrange(0, i + 1) =~= ds@.take(i + 1));
                    }
                    return None;
                },
            },
            None => {
                proof {
                    crate::text::lemma_digits_value_mono(ds@, i + 1);
                    assert(ds@.subrange(0, i + 1) =~= ds@.take(i + 1));
                }
                return None;
            },
        }
        i = i + 1;
    }
    proof {
        assert(ds@.take(ds@.len() as int) =~= ds@);
    }
    Some(acc)
}

/// An integer literal as a `usize`, when it is one (not negative, in range).
pub fn int_usize(neg: bool, ds: &[char]) -> (res: Option<usize>)
    requires
        all_digits(ds@),
    ensures
        match res {
            Some(x) => !neg && x == digits_value(ds@),
            None => neg || digits_value(ds@) > usize::MAX,
        },
{
    if neg {
        return None;
    }
    match digits_u64(ds) {
        Some(x) => if x <= usize::MAX as u64 {
            Some(x as usize)
        } else {
            None
        },
        None => None,
    }
}

/// An integer literal as an `i64`, when in range.
pub fn int_i64(neg: bool, ds: &[char]) -> (res: Option<i64>)
    requires
        all_digits(ds@),
    ensures
        ({
            let v: int = if neg {
                -(digits_value(ds@) as int)
            } else {
                digits_value(ds@) as int
            };
            match res {
                Some(x) => x == v,
                None => v < i64::MIN || v > i64::MAX,
            }
        }),
{
    match digits_u64(ds) {
        Some(x) => {
            if neg {
                if x <= 9223372036854775808u64 {
                    if x == 9223372036854775808u64 {
                        Some(i64::MIN)
                    } else {
                        Some(-(x as i64))
                    }
                } else {
                    None
                }
            } else if x <= i64::MAX as u64 {
                Some(x as i64)
            } else {
                None
            }
        },
        None => None,
    }
}

} // verus!
