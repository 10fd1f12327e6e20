use vstd::prelude::*;

verus! {

/// `String::push` appends one character to the end of the string.
pub assume_specification[ String::push ](s: &mut String, ch: char)
    ensures
        final(s)@ == old(s)@.push(ch),
;

/// `String::push_str` appends the characters of `string` to the end of the string.
pub assume_specification[ String::push_str ](s: &mut String, string: &str)
    ensures
        final(s)@ == old(s)@ + string@,
;

/// The characters of a string slice, in order.
pub fn str_chars(s: &str) -> (v: Vec<char>)
    ensures
        v@ == s@,
{
    broadcast use vstd::string::group_string_axioms;
    let mut v: Vec<char> = Vec::new();
    let mut it = s.chars();
    proof {
        assert(vstd::std_specs::iter::IteratorSpec::remaining(&it) == s@);
    }
    loop
        invariant
            v@ + vstd::std_specs::iter::IteratorSpec::remaining(&it) == s@,
            vstd::std_specs::iter::IteratorSpec::obeys_prophetic_iter_laws(&it),
            vstd::std_specs::iter::IteratorSpec::decrease(&it) is Some,
        decreases vstd::std_specs::iter::IteratorSpec::decrease(&it)->0,
    {
        let ghost before = vstd::std_specs::iter::IteratorSpec::remaining(&it);
        match it.next() {
            Some(c) => {
                v.push(c);
                assert(v@ + vstd::std_specs::iter::IteratorSpec::remaining(&it) =~= s@);
            },
            None => {
                assert(v@ =~= s@);
                return v;
            },
        }
    }
}

} // verus!

verus! {

/// `a == b` on string slices compares their characters.
pub fn str_equal(a: &str, b: &str) -> (r: bool)
    ensures
        r == (a@ == b@),
{
    chars_equal(&str_chars(a), &str_chars(b))
}

/// Whether two character slices hold the same characters.
pub fn chars_equal(a: &[char], b: &[char]) -> (r: bool)
    ensures
        r == (a@ == b@),
{
    if a.len() != b.len() {
        return false;
    }
    let mut i: usize = 0;
    while i < a.len()
        invariant
            a@.len() == b@.len(),
            i <= a@.len(),
            a@.take(i as int) == b@.take(i as int),
        decreases a@.len() - i,
    {
        if a[i] != b[i] {
            assert(a@[i as int] != b@[i as int]);
            return false;
        }
        assert(a@.take(i + 1) == a@.take(i as int).push(a@[i as int]));
        assert(b@.take(i + 1) == b@.take(i as int).push(b@[i as int]));
        i += 1;
    }
    assert(a@.take(i as int) == a@);
    assert(b@.take(i as int) == b@);
    true
}

/// A string holding exactly the given characters.
pub fn string_from_chars(v: &[char]) -> (s: String)
    ensures
        s@ == v@,
{
    let mut s = String::new();
    let mut i: usize = 0;
    while i < v.len()
        invariant
            i <= v@.len(),
            s@ == v@.take(i as int),
        decreases v@.len() - i,
    {
        s.push(v[i]);
        assert(v@.take(i + 1) == v@.take(i as int).push(v@[i as int]));
        i += 1;
    }
    assert(v@.take(i as int) == v@);
    s
}

/// Appends `v[from..to]` to `out`.
pub fn push_range(out: &mut String, v: &[char], from: usize, to: usize)
    requires
        from <= to <= v@.len(),
    ensures
        final(out)@ == old(out)@ + v@.subrange(from as int, to as int),
{
    let mut i = from;
    while i < to
        invariant
            from <= i <= to,
            to <= v@.len(),
            out@ == old(out)@ + v@.subrange(from as int, i as int),
        decreases to - i,
    {
        out.push(v[i]);
        assert(v@.subrange(from as int, i + 1) == v@.subrange(from as int, i as int).push(
            v@[i as int],
        ));
        i += 1;
    }
}

/// An owned copy of a string slice.
pub fn to_owned_string(s: &str) -> (r: String)
    ensures
        r@ == s@,
{
    s.to_owned()
}

/// The decimal digits of a natural number, most significant first, without leading zeros
/// (zero is the single digit `0`).
pub open spec fn decimal(n: nat) -> Seq<char>
    decreases n,
{
    if n < 10 {
        seq![digit_char(n)]
    } else {
        decimal(n / 10).push(digit_char(n % 10))
    }
}

/// The ASCII digit for a value below ten.
pub open spec fn digit_char(d: nat) -> char {
    (('0' as u32) + d) as char
}

/// The decimal representation of `n`, as `n.to_string()` writes it.
pub fn u64_to_decimal(n: u64) -> (s: String)
    ensures
        s@ == decimal(n as nat),
    decreases n,
{
    let d = n % 10;
    let c = digit_of(d as u8);
    if n < 10 {
        let mut s = String::new();
        s.push(c);
        assert(s@ == seq![digit_char(n as nat)]);
        s
    } else {
        let mut s = u64_to_decimal(n / 10);
        s.push(c);
        s
    }
}

/// The decimal representation of `n`, as `n.to_string()` writes it.
pub fn u128_to_decimal(n: u128) -> (s: String)
    ensures
        s@ == decimal(n as nat),
    decreases n,
{
    let d = n % 10;
    let c = digit_of(d as u8);
    if n < 10 {
        let mut s = String::new();
        s.push(c);
        assert(s@ == seq![digit_char(n as nat)]);
        s
    } else {
        let mut s = u128_to_decimal(n / 10);
        s.push(c);
        s
    }
}

/// The ASCII digit for `d`.
pub fn digit_of(d: u8) -> (c: char)
    requires
        d < 10,
    ensures
        c == digit_char(d as nat),
{
    if d == 0 { '0' } else if d == 1 { '1' } else if d == 2 { '2' } else if d == 3 { '3' } else if d == 4 { '4' } else if d == 5 { '5' } else if d == 6 { '6' } else if d == 7 { '7' } else if d == 8 { '8' } else { '9' }
}

/// The pieces of `s` between the occurrences of `sep`, found from the left without overlap,
/// as `str::split` yields them (an empty string gives one empty piece).
pub open spec fn split_by(s: Seq<char>, sep: Seq<char>) -> Seq<Seq<char>>
    decreases s.len(),
{
    if sep.len() == 0 || s.len() < sep.len() {
        seq![s]
    } else if s.take(sep.len() as int) == sep {
        seq![Seq::<char>::empty()] + split_by(s.skip(sep.len() as int), sep)
    } else {
        let rest = split_by(s.drop_first(), sep);
        rest.update(0, seq![s[0]] + rest[0])
    }
}

/// `split_by` always yields at least one piece.
pub proof fn lemma_split_by_nonempty(s: Seq<char>, sep: Seq<char>)
    ensures
        split_by(s, sep).len() >= 1,
    decreases s.len(),
{
    if sep.len() == 0 || s.len() < sep.len() {
    } else if s.take(sep.len() as int) == sep {
        lemma_split_by_nonempty(s.skip(sep.len() as int), sep);
    } else {
        lemma_split_by_nonempty(s.drop_first(), sep);
    }
}

/// Without a separator at its start, `t` contributes its first character to the first piece.
pub proof fn lemma_split_by_step(t: Seq<char>, sep: Seq<char>)
    requires
        sep.len() > 0,
        t.len() > 0,
        !(t.len() >= sep.len() && t.take(sep.len() as int) == sep),
    ensures
        split_by(t, sep) == glue(seq![t[0]], split_by(t.drop_first(), sep)),
{
    lemma_split_by_nonempty(t.drop_first(), sep);
    if t.len() < sep.len() {
        assert(split_by(t.drop_first(), sep) == seq![t.drop_first()]);
        assert(seq![t[0]] + t.drop_first() =~= t);
        assert(glue(seq![t[0]], split_by(t.drop_first(), sep)) =~= seq![t]);
    }
}

/// Prepends `cur` to the first piece of `rest`.
pub open spec fn glue(cur: Seq<char>, rest: Seq<Seq<char>>) -> Seq<Seq<char>> {
    rest.update(0, cur + rest[0])
}

/// Whether `sep` occurs in `s` at position `i`.
pub fn occurs_at(s: &[char], i: usize, sep: &[char]) -> (r: bool)
    requires
        i <= s@.len(),
    ensures
        r == (i + sep@.len() <= s@.len() && s@.subrange(i as int, i + sep@.len()) == sep@),
{
    if sep.len() > s.len() - i {
        return false;
    }
    let end = i + sep.len();
    let mut k: usize = 0;
    while k < sep.len()
        invariant
            i + sep@.len() <= s@.len(),
            end == i + sep@.len(),
            end <= s.len(),
            k <= sep@.len(),
            s@.subrange(i as int, i + k) == sep@.take(k as int),
        decreases sep@.len() - k,
    {
        if s[i + k] != sep[k] {
            assert(s@.subrange(i as int, i + sep@.len())[k as int] != sep@[k as int]);
            return false;
        }
        assert(s@.subrange(i as int, i + k + 1) =~= s@.subrange(i as int, i + k).push(s@[i + k]));
        assert(sep@.take(k + 1) =~= sep@.take(k as int).push(sep@[k as int]));
        k += 1;
    }
    assert(sep@.take(k as int) =~= sep@);
    true
}

/// The pieces of `s` between the occurrences of `sep` (which must not be empty).
pub fn split_chars(s: &[char], sep: &[char]) -> (pieces: Vec<Vec<char>>)
    requires
        sep@.len() > 0,
    ensures
        pieces@.map_values(|p: Vec<char>| p@) == split_by(s@, sep@),
{
    let mut pieces: Vec<Vec<char>> = Vec::new();
    let mut cur: Vec<char> = Vec::new();
    let mut i: usize = 0;
    assert(s@.skip(0) =~= s@);
    proof {
        lemma_split_by_nonempty(s@, sep@);
        assert(glue(cur@, split_by(s@, sep@)) =~= split_by(s@, sep@));
        assert(pieces@.map_values(|p: Vec<char>| p@) + split_by(s@, sep@) =~= split_by(s@, sep@));
    }
    while i < s.len()
        invariant
            sep@.len() > 0,
            i <= s@.len(),
            split_by(s@, sep@) == pieces@.map_values(|p: Vec<char>| p@) + glue(cur@, split_by(s@.skip(i as int), sep@)),
        decreases s@.len() - i,
    {
        let ghost rest_before = split_by(s@.skip(i as int), sep@);
        if occurs_at(s, i, sep) {
            proof {
                let t = s@.skip(i as int);
                assert(t.take(sep@.len() as int) =~= s@.subrange(i as int, i + sep@.len()));
                assert(t.skip(sep@.len() as int) =~= s@.skip(i + sep@.len()));
                lemma_split_by_nonempty(s@.skip(i + sep@.len()), sep@);
            }
            let ghost old_pieces = pieces@;
            let mut done: Vec<char> = Vec::new();
            std::mem::swap(&mut done, &mut cur);
            pieces.push(done);
            i = i + sep.len();
            assert(pieces@.map_values(|p: Vec<char>| p@) =~= old_pieces.map_values(|p: Vec<char>| p@).push(done@));
            assert(glue(cur@, split_by(s@.skip(i as int), sep@)) =~= split_by(s@.skip(i as int), sep@));
            assert(split_by(s@, sep@) =~= pieces@.map_values(|p: Vec<char>| p@) + glue(cur@, split_by(s@.skip(i as int), sep@)));
        } else {
            proof {
                let t = s@.skip(i as int);
                if t.len() >= sep@.len() {
                    assert(t.take(sep@.len() as int) =~= s@.subrange(i as int, i + sep@.len()));
                }
                assert(t.drop_first() =~= s@.skip(i + 1));
                lemma_split_by_nonempty(s@.skip(i + 1), sep@);
                lemma_split_by_step(t, sep@);
            }
            let ghost old_cur = cur@;
            let ghost x = s@[i as int];
            cur.push(s[i]);
            i = i + 1;
            proof {
                let r = split_by(s@.skip(i as int), sep@);
                assert(old_cur.push(x) + r[0] =~= old_cur + (seq![x] + r[0]));
            }
            assert(glue(cur@, split_by(s@.skip(i as int), sep@)) =~= glue(old_cur, rest_before));
        }
    }
    assert(s@.skip(i as int) =~= Seq::<char>::empty());
    let ghost old_pieces = pieces@;
    pieces.push(cur);
    assert(pieces@.map_values(|p: Vec<char>| p@) =~= split_by(s@, sep@));
    pieces
}

} // verus!

verus! {

/// Whether `c` has the Unicode `White_Space` property (what `char::is_whitespace` tests).
pub open spec fn is_whitespace(c: char) -> bool {
    ||| '\t' <= c <= '\r'
    ||| c == ' '
    ||| c == '\u{85}'
    ||| c == '\u{A0}'
    ||| c == '\u{1680}'
    ||| '\u{2000}' <= c <= '\u{200A}'
    ||| c == '\u{2028}'
    ||| c == '\u{2029}'
    ||| c == '\u{202F}'
    ||| c == '\u{205F}'
    ||| c == '\u{3000}'
}

/// `char::is_whitespace`.
pub fn char_is_whitespace(c: char) -> (r: bool)
    ensures
        r == is_whitespace(c),
{
    ('\t' <= c && c <= '\r') || c == ' ' || c == '\u{85}' || c == '\u{A0}' || c == '\u{1680}'
        || ('\u{2000}' <= c && c <= '\u{200A}') || c == '\u{2028}' || c == '\u{2029}'
        || c == '\u{202F}' || c == '\u{205F}' || c == '\u{3000}'
}

/// The number of whitespace characters at the start of `s`.
pub open spec fn leading_whitespace(s: Seq<char>) -> nat
    decreases s.len(),
{
    if s.len() > 0 && is_whitespace(s[0]) {
        1 + leading_whitespace(s.drop_first())
    } else {
        0
    }
}

/// At most every character of `s` is leading whitespace.
pub proof fn lemma_leading_whitespace_bound(s: Seq<char>)
    ensures
        leading_whitespace(s) <= s.len(),
    decreases s.len(),
{
    if s.len() > 0 {
        lemma_leading_whitespace_bound(s.drop_first());
    }
}

/// `s` without its leading whitespace, as `str::trim_start` returns it.
pub open spec fn trim_start(s: Seq<char>) -> Seq<char> {
    s.skip(leading_whitespace(s) as int)
}

/// The index of the first character of `s[from..]` that is not whitespace.
pub fn skip_whitespace(s: &[char], from: usize) -> (r: usize)
    requires
        from <= s@.len(),
    ensures
        from <= r <= s@.len(),
        trim_start(s@.skip(from as int)) == s@.skip(r as int),
{
    let mut i = from;
    while i < s.len() && char_is_whitespace(s[i])
        invariant
            from <= i <= s@.len(),
            trim_start(s@.skip(from as int)) == trim_start(s@.skip(i as int)),
        decreases s@.len() - i,
    {
        proof {
            let t = s@.skip(i as int);
            assert(t.drop_first() =~= s@.skip(i + 1));
            assert(t[0] == s@[i as int]);
            assert(is_whitespace(t[0]));
            assert(leading_whitespace(t) == 1 + leading_whitespace(t.drop_first()));
            lemma_leading_whitespace_bound(t.drop_first());
            assert(t.skip(leading_whitespace(t) as int) =~= t.drop_first().skip(
                leading_whitespace(t.drop_first()) as int,
            ));
        }
        i += 1;
    }
    proof {
        let t = s@.skip(i as int);
        assert(leading_whitespace(t) == 0);
        assert(t.skip(0) =~= t);
    }
    i
}

/// `s` with ASCII upper-case letters turned to lower case.
pub open spec fn ascii_lower(s: Seq<char>) -> Seq<char> {
    s.map_values(|c: char| if 'A' <= c <= 'Z' { ((c as u32) + 32) as char } else { c })
}

/// Whether `s` starts with `prefix`.
pub open spec fn starts_with(s: Seq<char>, prefix: Seq<char>) -> bool {
    prefix.len() <= s.len() && s.take(prefix.len() as int) == prefix
}

/// Whether `s` starts with `prefix`.
pub fn chars_start_with(s: &[char], prefix: &[char]) -> (r: bool)
    ensures
        r == starts_with(s@, prefix@),
{
    let r = occurs_at(s, 0, prefix);
    proof {
        if prefix@.len() <= s@.len() {
            assert(s@.subrange(0, prefix@.len() as int) =~= s@.take(prefix@.len() as int));
        }
    }
    r
}

/// Whether `s` starts with `prefix`.
pub fn str_starts_with(s: &str, prefix: &str) -> (r: bool)
    ensures
        r == starts_with(s@, prefix@),
{
    chars_start_with(str_chars(s).as_slice(), str_chars(prefix).as_slice())
}

/// The characters of the UTF-8 encoding of `c`, each byte read as the character with that
/// number (the Latin-1 reading of the bytes).
pub open spec fn byte_chars(c: char) -> Seq<char> {
    vstd::utf8::encode_scalar(c as u32).map_values(|b: u8| b as char)
}

/// Appends the bytes of the UTF-8 encoding of `c`, each as the character with that number.
pub fn push_byte_chars(out: &mut String, c: char)
    ensures
        final(out)@ == old(out)@ + byte_chars(c),
{
    let v = c as u32;
    if v <= 0x7F {
        out.push(((v & 0x7F) as u8) as char);
    } else if v <= 0x7FF {
        out.push((0xC0u8 | ((v >> 6) & 0x1F) as u8) as char);
        out.push((0x80u8 | (v & 0x3F) as u8) as char);
    } else if v <= 0xFFFF {
        out.push((0xE0u8 | ((v >> 12) & 0x0F) as u8) as char);
        out.push((0x80u8 | ((v >> 6) & 0x3F) as u8) as char);
        out.push((0x80u8 | (v & 0x3F) as u8) as char);
    } else {
        out.push((0xF0u8 | ((v >> 18) & 0x7) as u8) as char);
        out.push((0x80u8 | ((v >> 12) & 0x3F) as u8) as char);
        out.push((0x80u8 | ((v >> 6) & 0x3F) as u8) as char);
        out.push((0x80u8 | (v & 0x3F) as u8) as char);
    }
    proof {
        vstd::utf8::char_is_scalar(c);
    }
    assert(final(out)@ =~= old(out)@ + byte_chars(c));
}


/// Whether `pat` occurs somewhere in `s`.
pub open spec fn contains_seq(s: Seq<char>, pat: Seq<char>) -> bool {
    exists|i: int| 0 <= i && i + pat.len() <= s.len() && #[trigger] s.subrange(i, i + pat.len()) == pat
}

/// Whether `pat` occurs somewhere in `s` (`str::contains` with a string pattern).
pub fn str_contains(s: &str, pat: &str) -> (r: bool)
    ensures
        r == contains_seq(s@, pat@),
{
    let v = str_chars(s);
    let p = str_chars(pat);
    let mut i: usize = 0;
    loop
        invariant
            v@ == s@,
            p@ == pat@,
            i <= v@.len(),
            forall|j: int| 0 <= j < i && j + p@.len() <= v@.len() ==> #[trigger] v@.subrange(j, j + p@.len()) != p@,
        decreases v@.len() - i,
    {
        if occurs_at(v.as_slice(), i, p.as_slice()) {
            return true;
        }
        if i == v.len() {
            proof {
                if contains_seq(s@, pat@) {
                    let j = choose|j: int| 0 <= j && j + pat@.len() <= s@.len() && #[trigger] s@.subrange(j, j + pat@.len()) == pat@;
                    assert(v@.subrange(j, j + p@.len()) == p@);
                }
            }
            return false;
        }
        i += 1;
    }
}


/// The number of whitespace characters at the end of `s`.
pub open spec fn trailing_whitespace(s: Seq<char>) -> nat
    decreases s.len(),
{
    if s.len() > 0 && is_whitespace(s.last()) {
        1 + trailing_whitespace(s.drop_last())
    } else {
        0
    }
}

/// `s` without leading and trailing whitespace, as `str::trim` returns it.
pub open spec fn trim(s: Seq<char>) -> Seq<char> {
    let t = trim_start(s);
    t.take(t.len() - trailing_whitespace(t))
}

/// At most every character of `s` is trailing whitespace.
pub proof fn lemma_trailing_whitespace_bound(s: Seq<char>)
    ensures
        trailing_whitespace(s) <= s.len(),
    decreases s.len(),
{
    if s.len() > 0 {
        lemma_trailing_whitespace_bound(s.drop_last());
    }
}

/// The bounds of `s` without its leading and trailing whitespace.
pub fn trim_bounds(s: &[char]) -> (r: (usize, usize))
    ensures
        r.0 <= r.1 <= s@.len(),
        s@.subrange(r.0 as int, r.1 as int) == trim(s@),
{
    let start = skip_whitespace(s, 0);
    assert(s@.skip(0) =~= s@);
    let mut end = s.len();
    assert(s@.subrange(start as int, end as int) =~= s@.skip(start as int));
    while end > start && char_is_whitespace(s[end - 1])
        invariant
            start <= end <= s@.len(),
            trailing_whitespace(s@.skip(start as int)) == (s@.len() - end) + trailing_whitespace(
                s@.subrange(start as int, end as int),
            ),
        decreases end,
    {
        let ghost t = s@.subrange(start as int, end as int);
        assert(t.drop_last() =~= s@.subrange(start as int, end - 1));
        assert(t.last() == s@[end - 1]);
        end -= 1;
    }
    proof {
        let t = s@.subrange(start as int, end as int);
        assert(trailing_whitespace(t) == 0);
        let u = s@.skip(start as int);
        assert(u.take(u.len() - trailing_whitespace(u)) =~= t);
    }
    (start, end)
}


/// Whether `s` ends with `suffix`.
pub open spec fn ends_with(s: Seq<char>, suffix: Seq<char>) -> bool {
    suffix.len() <= s.len() && s.skip(s.len() - suffix.len()) == suffix
}

/// Whether `s` ends with `suffix`.
pub fn chars_end_with(s: &[char], suffix: &[char]) -> (r: bool)
    ensures
        r == ends_with(s@, suffix@),
{
    if suffix.len() > s.len() {
        return false;
    }
    let start = s.len() - suffix.len();
    let r = occurs_at(s, start, suffix);
    proof {
        assert(s@.subrange(start as int, start + suffix@.len()) =~= s@.skip(start as int));
    }
    r
}


/// A character that `s` lacks is lacked by every piece of `split_by(s, sep)`.
pub proof fn lemma_split_by_lacks(s: Seq<char>, sep: Seq<char>, c: char)
    requires
        !s.contains(c),
    ensures
        forall|k: int| 0 <= k < split_by(s, sep).len() ==> !(#[trigger] split_by(s, sep)[k]).contains(c),
    decreases s.len(),
{
    if sep.len() == 0 || s.len() < sep.len() {
    } else if s.take(sep.len() as int) == sep {
        let t = s.skip(sep.len() as int);
        assert(!t.contains(c)) by {
            if t.contains(c) {
                let j = choose|j: int| 0 <= j < t.len() && t[j] == c;
                assert(s[j + sep.len()] == c);
            }
        }
        lemma_split_by_lacks(t, sep, c);
        let r = seq![Seq::<char>::empty()] + split_by(t, sep);
        assert forall|k: int| 0 <= k < r.len() implies !(#[trigger] r[k]).contains(c) by {
            if k > 0 {
                assert(r[k] == split_by(t, sep)[k - 1]);
            }
        }
    } else {
        let t = s.drop_first();
        assert(!t.contains(c)) by {
            if t.contains(c) {
                let j = choose|j: int| 0 <= j < t.len() && t[j] == c;
                assert(s[j + 1] == c);
            }
        }
        lemma_split_by_lacks(t, sep, c);
        lemma_split_by_nonempty(t, sep);
        let rest = split_by(t, sep);
        let first = seq![s[0]] + rest[0];
        assert(!first.contains(c)) by {
            if first.contains(c) {
                let j = choose|j: int| 0 <= j < first.len() && first[j] == c;
                if j == 0 {
                    assert(s.contains(c));
                } else {
                    assert(rest[0][j - 1] == c);
                    assert(rest[0].contains(c));
                }
            }
        }
        let r = rest.update(0, first);
        assert forall|k: int| 0 <= k < r.len() implies !(#[trigger] r[k]).contains(c) by {
            if k > 0 {
                assert(r[k] == rest[k]);
            }
        }
    }
}

/// The bytes of an ASCII character, read as characters, are that character.
pub proof fn lemma_byte_chars_ascii(c: char)
    requires
        (c as u32) < 0x80,
    ensures
        byte_chars(c) == seq![c],
{
    let v = c as u32;
    assert(v & 0x7F == v) by (bit_vector)
        requires
            v < 0x80,
    ;
    assert(vstd::utf8::encode_scalar(v) == seq![(v & 0x7F) as u8]);
    assert(byte_chars(c) =~= seq![c]);
}

} // verus!
