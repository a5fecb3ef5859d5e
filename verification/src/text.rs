//! Character-level string operations with exact specifications.
//!
//! Every operation here is stated over the `Seq<char>` view of the strings it
//! takes and returns.
use vstd::prelude::*;

verus! {

// ---------------------------------------------------------------------------
// Specifications
// ---------------------------------------------------------------------------
/// Unicode `White_Space`, the property that `str::trim` strips.
pub open spec fn is_ws(c: char) -> bool {
    let v = c as u32;
    ||| 0x9 <= v <= 0xd
    ||| v == 0x20
    ||| v == 0x85
    ||| v == 0xa0
    ||| v == 0x1680
    ||| 0x2000 <= v <= 0x200a
    ||| v == 0x2028
    ||| v == 0x2029
    ||| v == 0x202f
    ||| v == 0x205f
    ||| v == 0x3000
}

/// Drops leading white space.
pub open spec fn trim_start(s: Seq<char>) -> Seq<char>
    decreases s.len(),
{
    if s.len() > 0 && is_ws(s[0]) {
        trim_start(s.drop_first())
    } else {
        s
    }
}

/// Drops trailing white space.
pub open spec fn trim_end(s: Seq<char>) -> Seq<char>
    decreases s.len(),
{
    if s.len() > 0 && is_ws(s.last()) {
        trim_end(s.drop_last())
    } else {
        s
    }
}

/// Drops leading and trailing white space.
pub open spec fn trim(s: Seq<char>) -> Seq<char> {
    trim_end(trim_start(s))
}

/// The index of the first occurrence of `c` in `s`, or `s.len()` where there is none.
pub open spec fn first_index_of(s: Seq<char>, c: char) -> int
    decreases s.len(),
{
    if s.len() == 0 {
        0
    } else if s[0] == c {
        0
    } else {
        1 + first_index_of(s.drop_first(), c)
    }
}

/// Splits `s` at the first occurrence of `c`, dropping that character.
pub open spec fn split_once(s: Seq<char>, c: char) -> Option<(Seq<char>, Seq<char>)> {
    let i = first_index_of(s, c);
    if i < s.len() {
        Some((s.take(i), s.skip(i + 1)))
    } else {
        None
    }
}

/// `s` without its first character, where that character is `c`.
pub open spec fn strip_prefix_char(s: Seq<char>, c: char) -> Option<Seq<char>> {
    if s.len() > 0 && s[0] == c {
        Some(s.drop_first())
    } else {
        None
    }
}

/// Splitting with `cur` as the piece collected so far.
pub open spec fn split_from(s: Seq<char>, c: char, cur: Seq<char>) -> Seq<Seq<char>>
    decreases s.len(),
{
    if s.len() == 0 {
        seq![cur]
    } else if s[0] == c {
        seq![cur] + split_from(s.drop_first(), c, Seq::empty())
    } else {
        split_from(s.drop_first(), c, cur.push(s[0]))
    }
}

/// The pieces of `s` between occurrences of `c` (as `str::split` with a char).
pub open spec fn split(s: Seq<char>, c: char) -> Seq<Seq<char>> {
    split_from(s, c, Seq::empty())
}

/// Every occurrence of `c` in `s` replaced by `w`.
pub open spec fn replace_char(s: Seq<char>, c: char, w: Seq<char>) -> Seq<char>
    decreases s.len(),
{
    if s.len() == 0 {
        s
    } else {
        replace_char(s.drop_last(), c, w) + (if s.last() == c {
            w
        } else {
            seq![s.last()]
        })
    }
}

/// Code of a character with ASCII upper case folded to lower case.
pub open spec fn ascii_fold(c: char) -> u32 {
    let v = c as u32;
    if 0x41 <= v <= 0x5a {
        (v + 0x20) as u32
    } else {
        v
    }
}

/// Equality up to ASCII case (as `str::eq_ignore_ascii_case`).
pub open spec fn eq_ignore_ascii_case(a: Seq<char>, b: Seq<char>) -> bool {
    &&& a.len() == b.len()
    &&& forall|i: int| 0 <= i < a.len() ==> ascii_fold(a[i]) == ascii_fold(b[i])
}

/// Whether `p` is a prefix of `s`.
pub open spec fn starts_with(s: Seq<char>, p: Seq<char>) -> bool {
    p.len() <= s.len() && s.take(p.len() as int) == p
}

/// The key by which strings are ordered: each code point shifted up by one,
/// so that `0` is free to serve as a separator in composite keys.
pub open spec fn chars_key(s: Seq<char>) -> Seq<u32> {
    s.map_values(|c: char| (c as u32 + 1) as u32)
}

/// What `str::to_lowercase` returns for a string (Unicode lower case mapping).
pub uninterp spec fn lowercase(s: Seq<char>) -> Seq<char>;

// ---------------------------------------------------------------------------
// Lemmas
// ---------------------------------------------------------------------------
proof fn lemma_trim_start_skip(s: Seq<char>, i: int)
    requires
        0 <= i <= s.len(),
        forall|j: int| 0 <= j < i ==> is_ws(s[j]),
        i == s.len() || !is_ws(s[i]),
    ensures
        trim_start(s) == s.skip(i),
    decreases i,
{
    if i == 0 {
        assert(s.skip(0) =~= s);
    } else {
        lemma_trim_start_skip(s.drop_first(), i - 1);
        assert(s.drop_first().skip(i - 1) =~= s.skip(i));
    }
}

proof fn lemma_trim_end_take(s: Seq<char>, i: int)
    requires
        0 <= i <= s.len(),
        forall|j: int| i <= j < s.len() ==> is_ws(s[j]),
        i == 0 || !is_ws(s[i - 1]),
    ensures
        trim_end(s) == s.take(i),
    decreases s.len() - i,
{
    if i == s.len() {
        assert(s.take(i) =~= s);
    } else {
        lemma_trim_end_take(s.drop_last(), i);
        assert(s.drop_last().take(i) =~= s.take(i));
    }
}

proof fn lemma_first_index_of(s: Seq<char>, c: char, i: int)
    requires
        0 <= i <= s.len(),
        forall|j: int| 0 <= j < i ==> s[j] != c,
        i == s.len() || s[i] == c,
    ensures
        first_index_of(s, c) == i,
    decreases i,
{
    if i > 0 {
        lemma_first_index_of(s.drop_first(), c, i - 1);
    }
}

// ---------------------------------------------------------------------------
// Executable operations
// ---------------------------------------------------------------------------
/// Appends one character (`String::push`).
#[verifier::external_body]
pub(crate) fn push_char(s: &mut String, c: char)
    ensures
        final(s)@ == old(s)@.push(c),
{
    s.push(c)
}

/// Lower-cases a string with `str::to_lowercase`; the result is named by
/// `lowercase`, nothing more is claimed of it.
#[verifier::external_body]
pub(crate) fn to_lowercase(s: &str) -> (r: String)
    ensures
        r@ == lowercase(s@),
{
    s.to_lowercase()
}

/// Appends a whole string.
pub fn push_str(s: &mut String, t: &str)
    ensures
        final(s)@ == old(s)@ + t@,
{
    let ghost start = s@;
    for c in it: t.chars()
        invariant
            it.seq() == t@,
            s@ == start + t@.take(it.index() as int),
    {
        push_char(s, c);
        assert(t@.take(it.index() as int + 1) =~= t@.take(it.index() as int).push(c));
    }
    assert(s@ =~= start + t@);
}

/// A fresh owned copy of a string slice.
pub fn owned(s: &str) -> (r: String)
    ensures
        r@ == s@,
{
    let mut r = String::new();
    push_str(&mut r, s);
    r
}

/// Concatenation of two strings.
pub fn concat(a: &str, b: &str) -> (r: String)
    ensures
        r@ == a@ + b@,
{
    let mut r = owned(a);
    push_str(&mut r, b);
    r
}

/// The characters of a string.
pub fn chars_of(s: &str) -> (r: Vec<char>)
    ensures
        r@ == s@,
{
    let mut r: Vec<char> = Vec::new();
    for c in it: s.chars()
        invariant
            it.seq() == s@,
            r@ == s@.take(it.index() as int),
    {
        r.push(c);
        assert(s@.take(it.index() as int + 1) =~= s@.take(it.index() as int).push(c));
    }
    assert(r@ =~= s@);
    r
}

/// A string made of a range of characters.
pub fn string_from_range(v: &Vec<char>, lo: usize, hi: usize) -> (r: String)
    requires
        lo <= hi <= v.len(),
    ensures
        r@ == v@.subrange(lo as int, hi as int),
{
    let mut r = String::new();
    let mut i = lo;
    while i < hi
        invariant
            lo <= i <= hi <= v.len(),
            r@ == v@.subrange(lo as int, i as int),
        decreases hi - i,
    {
        push_char(&mut r, v[i]);
        assert(v@.subrange(lo as int, i + 1) =~= v@.subrange(lo as int, i as int).push(v@[i as int]));
        i = i + 1;
    }
    r
}

/// Whether a character is Unicode white space.
pub fn is_whitespace(c: char) -> (r: bool)
    ensures
        r == is_ws(c),
{
    let v = c as u32;
    (0x9 <= v && v <= 0xd) || v == 0x20 || v == 0x85 || v == 0xa0 || v == 0x1680 || (0x2000
        <= v && v <= 0x200a) || v == 0x2028 || v == 0x2029 || v == 0x202f || v == 0x205f || v
        == 0x3000
}

/// `str::trim`: the string without leading and trailing white space.
pub fn trim_str(s: &str) -> (r: String)
    ensures
        r@ == trim(s@),
{
    let v = chars_of(s);
    let n = v.len();
    let mut a: usize = 0;
    while a < n && is_whitespace(v[a])
        invariant
            a <= n == v.len(),
            forall|j: int| 0 <= j < a ==> is_ws(v@[j]),
        decreases n - a,
    {
        a = a + 1;
    }
    let mut b: usize = n;
    while b > a && is_whitespace(v[b - 1])
        invariant
            a <= b <= n == v.len(),
            forall|j: int| b <= j < n ==> is_ws(v@[j]),
        decreases b - a,
    {
        b = b - 1;
    }
    proof {
        lemma_trim_start_skip(v@, a as int);
        let t = v@.skip(a as int);
        lemma_trim_end_take(t, (b - a) as int);
        assert(t.take((b - a) as int) =~= v@.subrange(a as int, b as int));
    }
    string_from_range(&v, a, b)
}

/// `str::split_once` with a character separator.
pub fn split_once_char(s: &str, sep: char) -> (r: Option<(String, String)>)
    ensures
        match r {
            Some((a, b)) => split_once(s@, sep) == Some((a@, b@)),
            None => split_once(s@, sep) is None,
        },
{
    let v = chars_of(s);
    let n = v.len();
    let mut i: usize = 0;
    while i < n && v[i] != sep
        invariant
            i <= n == v.len(),
            forall|j: int| 0 <= j < i ==> v@[j] != sep,
        decreases n - i,
    {
        i = i + 1;
    }
    proof {
        lemma_first_index_of(v@, sep, i as int);
    }
    if i < n {
        let a = string_from_range(&v, 0, i);
        let b = string_from_range(&v, i + 1, n);
        assert(a@ =~= s@.take(i as int));
        assert(b@ =~= s@.skip(i + 1));
        Some((a, b))
    } else {
        None
    }
}

/// `str::strip_prefix` with a character pattern.
pub fn strip_prefix_char_str(s: &str, c: char) -> (r: Option<String>)
    ensures
        match r {
            Some(t) => strip_prefix_char(s@, c) == Some(t@),
            None => strip_prefix_char(s@, c) is None,
        },
{
    let v = chars_of(s);
    if v.len() > 0 && v[0] == c {
        let t = string_from_range(&v, 1, v.len());
        assert(t@ =~= s@.drop_first());
        Some(t)
    } else {
        None
    }
}

/// `str::split` with a character separator, collected.
pub fn split_char(s: &str, sep: char) -> (r: Vec<String>)
    ensures
        r@.map_values(|x: String| x@) == split(s@, sep),
{
    let mut pieces: Vec<String> = Vec::new();
    let mut cur = String::new();
    assert(s@.skip(0) =~= s@);
    assert(pieces@.map_values(|x: String| x@) =~= Seq::<Seq<char>>::empty());
    for c in it: s.chars()
        invariant
            pieces@.map_values(|x: String| x@) + split_from(s@.skip(it.index() as int), sep, cur@)
                == split(s@, sep),
            it.seq() == s@,
    {
        let ghost rest = s@.skip(it.index() as int);
        proof {
            assert(rest[0] == c);
            assert(rest.drop_first() =~= s@.skip(it.index() + 1));
        }
        if c == sep {
            let ghost old_pieces = pieces@.map_values(|x: String| x@);
            let done = cur;
            pieces.push(done);
            cur = String::new();
            assert(pieces@.map_values(|x: String| x@) =~= old_pieces + seq![done@]);
        } else {
            push_char(&mut cur, c);
        }
    }
    let ghost old_pieces = pieces@.map_values(|x: String| x@);
    assert(s@.skip(s@.len() as int) =~= Seq::<char>::empty());
    let last = cur;
    pieces.push(last);
    assert(pieces@.map_values(|x: String| x@) =~= old_pieces + seq![last@]);
    pieces
}

/// Every occurrence of a character replaced by a string.
pub fn replace_char_str(s: &str, c: char, w: &str) -> (r: String)
    ensures
        r@ == replace_char(s@, c, w@),
{
    let mut r = String::new();
    for x in it: s.chars()
        invariant
            r@ == replace_char(s@.take(it.index() as int), c, w@),
            it.seq() == s@,
    {
        let ghost pre = s@.take(it.index() as int);
        let ghost next = s@.take(it.index() + 1);
        assert(next.drop_last() =~= pre);
        assert(next.last() == x);
        if x == c {
            push_str(&mut r, w);
        } else {
            push_char(&mut r, x);
            assert(seq![x] =~= Seq::<char>::empty().push(x));
            assert(r@ =~= replace_char(pre, c, w@) + seq![x]);
        }
    }
    assert(s@.take(s@.len() as int) =~= s@);
    r
}

/// A character code with ASCII upper case folded to lower case.
fn fold_char(c: char) -> (r: u32)
    ensures
        r == ascii_fold(c),
{
    let v = c as u32;
    if 0x41 <= v && v <= 0x5a {
        v + 0x20
    } else {
        v
    }
}

/// `str::eq_ignore_ascii_case`.
pub fn eq_ignore_ascii_case_str(a: &str, b: &str) -> (r: bool)
    ensures
        r == eq_ignore_ascii_case(a@, b@),
{
    let va = chars_of(a);
    let vb = chars_of(b);
    if va.len() != vb.len() {
        return false;
    }
    let mut i: usize = 0;
    while i < va.len()
        invariant
            i <= va.len() == vb.len(),
            va@ == a@,
            vb@ == b@,
            forall|j: int| 0 <= j < i ==> ascii_fold(va@[j]) == ascii_fold(vb@[j]),
        decreases va.len() - i,
    {
        if fold_char(va[i]) != fold_char(vb[i]) {
            return false;
        }
        i = i + 1;
    }
    true
}

/// `str::starts_with` with a string pattern.
pub fn starts_with_str(s: &str, p: &str) -> (r: bool)
    ensures
        r == starts_with(s@, p@),
{
    let vs = chars_of(s);
    let vp = chars_of(p);
    if vp.len() > vs.len() {
        return false;
    }
    let mut i: usize = 0;
    while i < vp.len()
        invariant
            i <= vp.len() <= vs.len(),
            vs@ == s@,
            vp@ == p@,
            forall|j: int| 0 <= j < i ==> vs@[j] == vp@[j],
        decreases vp.len() - i,
    {
        if vs[i] != vp[i] {
            assert(s@.take(p@.len() as int)[i as int] != p@[i as int]);
            return false;
        }
        i = i + 1;
    }
    assert(s@.take(p@.len() as int) =~= p@);
    true
}

/// Equality of two strings.
pub fn str_eq(a: &str, b: &str) -> (r: bool)
    ensures
        r == (a@ == b@),
{
    let va = chars_of(a);
    let vb = chars_of(b);
    if va.len() != vb.len() {
        return false;
    }
    let mut i: usize = 0;
    while i < va.len()
        invariant
            i <= va.len() == vb.len(),
            va@ == a@,
            vb@ == b@,
            forall|j: int| 0 <= j < i ==> va@[j] == vb@[j],
        decreases va.len() - i,
    {
        if va[i] != vb[i] {
            return false;
        }
        i = i + 1;
    }
    assert(va@ =~= vb@);
    true
}

/// The ordering key of a string.
pub fn key_of_str(s: &str) -> (r: Vec<u32>)
    ensures
        r@ == chars_key(s@),
{
    let mut r: Vec<u32> = Vec::new();
    for c in it: s.chars()
        invariant
            it.seq() == s@,
            r@ == chars_key(s@.take(it.index() as int)),
    {
        proof {
            vstd::utf8::char_is_scalar(c);
        }
        let v: u32 = c as u32;
        r.push(v + 1);
        assert(chars_key(s@.take(it.index() as int + 1)) =~= chars_key(
            s@.take(it.index() as int),
        ).push((c as u32 + 1) as u32));
    }
    assert(s@.take(s@.len() as int) =~= s@);
    r
}


/// Every occurrence of the non-empty pattern `p` in `s`, found from the left
/// without overlap, replaced by `w` (as `str::replace`). An empty pattern
/// leaves `s` as it is.
pub open spec fn replace_all(s: Seq<char>, p: Seq<char>, w: Seq<char>) -> Seq<char>
    decreases s.len(),
{
    if p.len() == 0 || s.len() < p.len() {
        s
    } else if s.take(p.len() as int) == p {
        w + replace_all(s.skip(p.len() as int), p, w)
    } else {
        seq![s[0]] + replace_all(s.skip(1), p, w)
    }
}

/// Whether `p` occurs in `cs` at position `i`.
fn occurs_at(cs: &Vec<char>, p: &Vec<char>, i: usize) -> (r: bool)
    requires
        i <= cs.len(),
    ensures
        r == (p.len() <= cs.len() - i && cs@.skip(i as int).take(p.len() as int) == p@),
{
    if p.len() > cs.len() - i {
        return false;
    }
    let mut j: usize = 0;
    while j < p.len()
        invariant
            i <= cs.len(),
            p.len() <= cs.len() - i,
            j <= p.len(),
            forall|k: int| 0 <= k < j ==> cs@[i + k] == p@[k],
        decreases p.len() - j,
    {
        if cs[i + j] != p[j] {
            assert(cs@.skip(i as int).take(p.len() as int)[j as int] == cs@[i + j]);
            return false;
        }
        j = j + 1;
    }
    assert(cs@.skip(i as int).take(p.len() as int) =~= p@);
    true
}

/// Every occurrence of a non-empty pattern replaced by a string.
pub fn replace_str(s: &str, p: &str, w: &str) -> (r: String)
    requires
        p@.len() > 0,
    ensures
        r@ == replace_all(s@, p@, w@),
{
    let cs = chars_of(s);
    let ps = chars_of(p);
    let mut r = String::new();
    let mut i: usize = 0;
    assert(s@.skip(0) =~= s@);
    while i < cs.len()
        invariant
            cs@ == s@,
            ps@ == p@,
            p@.len() > 0,
            i <= cs.len(),
            r@ + replace_all(s@.skip(i as int), p@, w@) == replace_all(s@, p@, w@),
        decreases cs.len() - i,
    {
        let ghost rest = s@.skip(i as int);
        if occurs_at(&cs, &ps, i) {
            assert(rest.skip(p@.len() as int) =~= s@.skip(i + p@.len()));
            push_str(&mut r, w);
            assert(r@ + replace_all(s@.skip(i + p@.len()), p@, w@) =~= replace_all(s@, p@, w@));
            i = i + ps.len();
        } else {
            assert(rest.skip(1) =~= s@.skip(i + 1));
            assert(rest[0] == cs@[i as int]);
            let ghost pre = r@;
            push_char(&mut r, cs[i]);
            proof {
                if rest.len() < p@.len() {
                    assert(rest =~= seq![rest[0]] + rest.skip(1));
                    assert(replace_all(rest.skip(1), p@, w@) == rest.skip(1));
                }
            }
            assert(r@ + replace_all(s@.skip(i + 1), p@, w@) =~= pre + replace_all(rest, p@, w@));
            i = i + 1;
        }
    }
    assert(s@.skip(i as int) =~= Seq::<char>::empty());
    assert(r@ + Seq::<char>::empty() =~= r@);
    r
}


/// The parts joined with `sep` between each two.
pub open spec fn join(parts: Seq<Seq<char>>, sep: Seq<char>) -> Seq<char>
    decreases parts.len(),
{
    if parts.len() == 0 {
        Seq::empty()
    } else if parts.len() == 1 {
        parts[0]
    } else {
        join(parts.drop_last(), sep) + sep + parts.last()
    }
}

/// Joins strings with a separator.
pub fn join_strs(parts: &Vec<String>, sep: &str) -> (r: String)
    ensures
        r@ == join(parts@.map_values(|p: String| p@), sep@),
{
    let ghost pv = parts@.map_values(|p: String| p@);
    let mut r = String::new();
    let mut i: usize = 0;
    while i < parts.len()
        invariant
            pv == parts@.map_values(|p: String| p@),
            i <= parts.len(),
            r@ == join(pv.take(i as int), sep@),
        decreases parts.len() - i,
    {
        assert(pv.take(i + 1).drop_last() =~= pv.take(i as int));
        if i > 0 {
            push_str(&mut r, sep);
        } else {
            assert(pv.take(1) =~= seq![pv[0]]);
        }
        push_str(&mut r, parts[i].as_str());
        i = i + 1;
    }
    assert(pv.take(parts.len() as int) =~= pv);
    r
}

/// The lower-case hexadecimal digits of `v`, without leading zeros (`0` for zero).
pub open spec fn hex_digits(v: nat) -> Seq<char>
    decreases v,
{
    let d = v % 16;
    let c = if d < 10 {
        (d + 0x30) as char
    } else {
        (d - 10 + 0x61) as char
    };
    if v < 16 {
        seq![c]
    } else {
        hex_digits(v / 16) + seq![c]
    }
}

/// How `Debug` writes a character inside a quoted string: the named escapes
/// for NUL, tab, carriage return, line feed, backslash and double quote,
/// `\u{..}` for the other ASCII control characters, the character itself
/// otherwise.
pub open spec fn escape_debug(c: char) -> Seq<char> {
    if c == '\0' {
        seq!['\\', '0']
    } else if c == '\t' {
        seq!['\\', 't']
    } else if c == '\r' {
        seq!['\\', 'r']
    } else if c == '\n' {
        seq!['\\', 'n']
    } else if c == '\\' {
        seq!['\\', '\\']
    } else if c == '"' {
        seq!['\\', '"']
    } else if (c as u32) < 0x20 || c as u32 == 0x7f {
        seq!['\\', 'u', '{'] + hex_digits(c as u32 as nat) + seq!['}']
    } else {
        seq![c]
    }
}

/// The characters of `s`, each escaped as `Debug` does.
pub open spec fn escaped(s: Seq<char>) -> Seq<char>
    decreases s.len(),
{
    if s.len() == 0 {
        Seq::empty()
    } else {
        escaped(s.drop_last()) + escape_debug(s.last())
    }
}

/// A string as `Debug` writes it: quoted and escaped.
pub open spec fn debug_str(s: Seq<char>) -> Seq<char> {
    seq!['"'] + escaped(s) + seq!['"']
}

/// The hexadecimal digits of a small number.
fn push_hex(r: &mut String, v: u32)
    ensures
        final(r)@ == old(r)@ + hex_digits(v as nat),
    decreases v,
{
    let d = v % 16;
    let c = if d < 10 {
        char_of_digit(d + 0x30)
    } else {
        char_of_digit(d - 10 + 0x61)
    };
    if v >= 16 {
        push_hex(r, v / 16);
    }
    push_char(r, c);
}

/// The character of an ASCII code.
fn char_of_digit(v: u32) -> (c: char)
    requires
        v < 0x80,
    ensures
        c == v as char,
{
    let b: u8 = v as u8;
    b as char
}

/// Appends a character escaped as `Debug` does.
fn push_escaped(r: &mut String, c: char)
    ensures
        final(r)@ == old(r)@ + escape_debug(c),
{
    let ghost start = r@;
    if c == '\0' || c == '\t' || c == '\r' || c == '\n' || c == '\\' || c == '"' {
        let e = if c == '\0' {
            '0'
        } else if c == '\t' {
            't'
        } else if c == '\r' {
            'r'
        } else if c == '\n' {
            'n'
        } else {
            c
        };
        push_char(r, '\\');
        push_char(r, e);
        assert(r@ =~= start + escape_debug(c));
    } else if (c as u32) < 0x20 || c as u32 == 0x7f {
        push_char(r, '\\');
        push_char(r, 'u');
        push_char(r, '{');
        push_hex(r, c as u32);
        push_char(r, '}');
        assert(r@ =~= start + escape_debug(c));
    } else {
        push_char(r, c);
        assert(r@ =~= start + escape_debug(c));
    }
}

/// A string as `Debug` writes it.
pub fn debug_string(s: &str) -> (r: String)
    ensures
        r@ == debug_str(s@),
{
    let mut r = String::new();
    push_char(&mut r, '"');
    for c in it: s.chars()
        invariant
            it.seq() == s@,
            r@ == seq!['"'] + escaped(s@.take(it.index() as int)),
    {
        assert(s@.take(it.index() + 1).drop_last() =~= s@.take(it.index() as int));
        push_escaped(&mut r, c);
    }
    assert(s@.take(s@.len() as int) =~= s@);
    push_char(&mut r, '"');
    r
}


/// The decimal digits of `v`, without leading zeros (`0` for zero).
pub open spec fn dec_digits(v: nat) -> Seq<char>
    decreases v,
{
    let c = ((v % 10) + 0x30) as char;
    if v < 10 {
        seq![c]
    } else {
        dec_digits(v / 10) + seq![c]
    }
}

/// An integer in decimal, with `-` in front where negative.
pub open spec fn int_text(v: int) -> Seq<char> {
    if v < 0 {
        seq!['-'] + dec_digits((-v) as nat)
    } else {
        dec_digits(v as nat)
    }
}

/// Appends the decimal digits of `v`.
fn push_dec(r: &mut String, v: u64)
    ensures
        final(r)@ == old(r)@ + dec_digits(v as nat),
    decreases v,
{
    if v >= 10 {
        push_dec(r, v / 10);
    }
    let d: u8 = (v % 10) as u8;
    let c = (d + 0x30) as char;
    push_char(r, c);
}

/// A `u64` in decimal.
pub fn u64_text(v: u64) -> (r: String)
    ensures
        r@ == dec_digits(v as nat),
{
    let mut r = String::new();
    push_dec(&mut r, v);
    r
}

/// An `i32` in decimal.
pub fn i32_text(v: i32) -> (r: String)
    ensures
        r@ == int_text(v as int),
{
    let mut r = String::new();
    if v < 0 {
        push_char(&mut r, '-');
        let m: i64 = -(v as i64);
        push_dec(&mut r, m as u64);
    } else {
        push_dec(&mut r, v as u64);
    }
    r
}

} // verus!
