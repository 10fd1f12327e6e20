use vstd::prelude::*;

use crate::classmap::Mapping;
use crate::text::{str_chars, str_equal, str_starts_with, to_owned_string};
use crate::transpile::js::{extension_rewrite, remote};

pub use crate::classmap::lookup_mapping_path;

verus! {

/// The script transpiler that stamps local imports with one build time.
pub struct JsTranspiler {
    classmap: Mapping,
    sourcemap: bool,
    dev: bool,
}

impl JsTranspiler {
    /// The classmap of this transpiler.
    pub closed spec fn spec_classmap(&self) -> Mapping {
        self.classmap
    }

    /// Whether source maps are written.
    pub closed spec fn spec_sourcemap(&self) -> bool {
        self.sourcemap
    }

    /// Whether this is a development build.
    pub closed spec fn spec_dev(&self) -> bool {
        self.dev
    }

    /// A transpiler with the given classmap and flags.
    pub fn new(classmap: Mapping, sourcemap: bool, dev: bool) -> (t: Self)
        ensures
            t.spec_classmap() == classmap,
            t.spec_sourcemap() == sourcemap,
            t.spec_dev() == dev,
    {
        Self { classmap, sourcemap, dev }
    }

    /// Whether source maps are written.
    pub fn sourcemap(&self) -> (r: bool)
        ensures
            r == self.spec_sourcemap(),
    {
        self.sourcemap
    }

    /// Whether this is a development build.
    pub fn dev(&self) -> (r: bool)
        ensures
            r == self.spec_dev(),
    {
        self.dev
    }

    /// The classmap of this transpiler.
    pub fn classmap(&self) -> (m: &Mapping)
        ensures
            *m == self.spec_classmap(),
    {
        &self.classmap
    }
}

/// The extension rewriting of an import specifier (see [`extension_rewrite`]).
pub fn rewrite_specifier(specifier: &str) -> (r: Option<String>)
    ensures
        match extension_rewrite(specifier@) {
            Some(t) => r matches Some(s) && s@ == t,
            None => r is None,
        },
{
    crate::transpile::js::rewrite_extension_of(specifier)
}

/// The position of the first `c` in `s`, or the length when there is none.
pub open spec fn first_index_or_len(s: Seq<char>, c: char) -> int
    decreases s.len(),
{
    if s.len() == 0 {
        0
    } else if s[0] == c {
        0
    } else {
        1 + first_index_or_len(s.drop_first(), c)
    }
}

/// The specifier up to its query (`?`) or fragment (`#`), whichever comes first.
pub open spec fn without_query(s: Seq<char>) -> Seq<char> {
    let q = first_index_or_len(s, '?');
    let f = first_index_or_len(s, '#');
    s.take(if q < f { q } else { f })
}

/// `first_index_or_len` lies within the sequence and no earlier character is `c`.
proof fn lemma_first_index(s: Seq<char>, c: char)
    ensures
        0 <= first_index_or_len(s, c) <= s.len(),
        forall|j: int| 0 <= j < first_index_or_len(s, c) ==> s[j] != c,
        first_index_or_len(s, c) < s.len() ==> s[first_index_or_len(s, c)] == c,
    decreases s.len(),
{
    if s.len() > 0 && s[0] != c {
        lemma_first_index(s.drop_first(), c);
        assert forall|j: int| 0 <= j < first_index_or_len(s, c) implies s[j] != c by {
            if j > 0 {
                assert(s[j] == s.drop_first()[j - 1]);
            }
        }
    }
}

/// The position of the first `c` in `v`, or the length when there is none.
fn find_char_or_len(v: &[char], c: char) -> (r: usize)
    ensures
        r == first_index_or_len(v@, c),
{
    let mut k: usize = 0;
    while k < v.len()
        invariant
            k <= v@.len(),
            forall|j: int| 0 <= j < k ==> v@[j] != c,
        decreases v@.len() - k,
    {
        if v[k] == c {
            proof {
                lemma_first_index(v@, c);
                let f = first_index_or_len(v@, c);
                if f < k {
                    assert(v@[f] == c);
                }
                if f > k {
                    assert(v@[k as int] != c);
                }
            }
            return k;
        }
        k += 1;
    }
    proof {
        lemma_first_index(v@, c);
        let f = first_index_or_len(v@, c);
        if f < k {
            assert(v@[f] == c);
        }
    }
    k
}

/// The specifier without its query and fragment.
pub fn trim_query_and_fragment(specifier: &str) -> (r: String)
    ensures
        r@ == without_query(specifier@),
{
    let v = str_chars(specifier);
    let q = find_char_or_len(v.as_slice(), '?');
    let f = find_char_or_len(v.as_slice(), '#');
    let end = if q < f { q } else { f };
    proof {
        lemma_first_index(v@, '?');
        lemma_first_index(v@, '#');
    }
    let part = crate::transpile::css::slice_range(v.as_slice(), 0, end);
    assert(part@ =~= v@.take(end as int));
    crate::text::string_from_chars(part.as_slice())
}

/// What an import specifier is stamped with: remote ones never; in a development build a
/// relative one gets the build's time, and a `/modules/` one, without its query and
/// fragment, gets the time `resolved` recorded for that module when there is one; the JSX
/// runtime is pointed at the bundled one.
pub open spec fn stamped(s: Seq<char>, timestamp: u64, dev: bool, resolved: Option<u64>) -> Option<Seq<char>> {
    if remote(s) {
        None
    } else if dev && (crate::text::starts_with(s, "./"@) || crate::text::starts_with(s, "../"@)) {
        Some(s + "?t="@ + crate::text::decimal(timestamp as nat))
    } else if dev && crate::text::starts_with(s, "/modules/"@) && resolved is Some {
        Some(without_query(s) + "?t="@ + crate::text::decimal(resolved->0 as nat))
    } else if s == "/modules/stdlib/src/expose/jsx-runtime"@ || s == "react/jsx-runtime"@ {
        Some("/modules/stdlib/src/expose/jsx-runtime.js"@)
    } else {
        None
    }
}

/// The stamped form of an import specifier (see [`stamped`]); `resolved` is the time recorded
/// for the module of a `/modules/` specifier, if any.
pub fn rewrite_with_timestamp(specifier: &str, timestamp: u64, dev: bool, resolved: Option<u64>) -> (r: Option<String>)
    ensures
        match stamped(specifier@, timestamp, dev, resolved) {
            Some(t) => r matches Some(s) && s@ == t,
            None => r is None,
        },
{
    if str_starts_with(specifier, "http://") || str_starts_with(specifier, "https://") {
        return None;
    }
    if dev {
        if str_starts_with(specifier, "./") || str_starts_with(specifier, "../") {
            let mut out = to_owned_string(specifier);
            out.push_str("?t=");
            let d = crate::text::u64_to_decimal(timestamp);
            out.push_str(d.as_str());
            return Some(out);
        }
        if str_starts_with(specifier, "/modules/") {
            if let Some(ts) = resolved {
                let mut out = trim_query_and_fragment(specifier);
                out.push_str("?t=");
                let d = crate::text::u64_to_decimal(ts);
                out.push_str(d.as_str());
                return Some(out);
            }
        }
    }
    if str_equal(specifier, "/modules/stdlib/src/expose/jsx-runtime") || str_equal(specifier, "react/jsx-runtime") {
        return Some(to_owned_string("/modules/stdlib/src/expose/jsx-runtime.js"));
    }
    None
}

/// Whether `c` is a Unicode word character (`\w` of regular expressions): Alphabetic or
/// Join_Control, or of the general categories Decimal_Number, Mark or Connector_Punctuation,
/// as `regex_syntax::is_word_character` decides.
pub uninterp spec fn unicode_word_char(c: char) -> bool;

/// Whether `c` is an ASCII letter, digit or `_`.
pub open spec fn ascii_word_char(c: char) -> bool {
    ('a' <= c <= 'z') || ('A' <= c <= 'Z') || ('0' <= c <= '9') || c == '_'
}

/// Asks `regex_syntax::is_word_character` whether `c` is a Unicode word character.  With the
/// crate's default features (`unicode-perl` on) it answers without panicking.  The contract
/// names the answer and states what the crate's source gives for an ASCII character: a word
/// character exactly when it is a letter, a digit or `_`.
#[verifier::external_body]
fn is_word_char(c: char) -> (r: bool)
    ensures
        r == unicode_word_char(c),
        (c as int) < 128 ==> (r <==> ascii_word_char(c)),
{
    regex_syntax::is_word_character(c)
}

/// The lowercase hexadecimal digit for `d` (below 16).
pub open spec fn hex_digit(d: int) -> char {
    if d < 10 {
        (('0' as int) + d) as char
    } else {
        (('a' as int) + d - 10) as char
    }
}

/// How `c` is written inside a JSON string literal: `"` and `\` behind a backslash, the
/// control characters with a short form (`\b`, `\t`, `\n`, `\f`, `\r`) in it, the other
/// control characters below U+0020 as `\u00` and two lowercase hex digits, and every other
/// character as itself.
pub open spec fn json_escape_char(c: char) -> Seq<char> {
    if c == '"' {
        seq!['\\', '"']
    } else if c == '\\' {
        seq!['\\', '\\']
    } else if c == '\u{8}' {
        seq!['\\', 'b']
    } else if c == '\t' {
        seq!['\\', 't']
    } else if c == '\n' {
        seq!['\\', 'n']
    } else if c == '\u{c}' {
        seq!['\\', 'f']
    } else if c == '\r' {
        seq!['\\', 'r']
    } else if (c as int) < 32 {
        seq!['\\', 'u', '0', '0', hex_digit((c as int) / 16), hex_digit((c as int) % 16)]
    } else {
        seq![c]
    }
}

/// The characters of `s`, each written as in a JSON string literal.
pub open spec fn json_escape(s: Seq<char>) -> Seq<char>
    decreases s.len(),
{
    if s.len() == 0 {
        Seq::empty()
    } else {
        json_escape(s.drop_last()) + json_escape_char(s.last())
    }
}

/// The JSON string literal that `serde_json::to_string` writes for the text `s`: the text,
/// escaped, between double quotes.
pub open spec fn json_string(s: Seq<char>) -> Seq<char> {
    seq!['"'] + json_escape(s) + seq!['"']
}

/// Writes `s` as a JSON string literal with `serde_json::to_string`; an error would come back
/// as its `Display` text.  The contract claims that there is none (the crate writes into a
/// `Vec`, which never fails, and a `str` has no failing serialization) and that the literal
/// is [`json_string`]: the crate's escape table escapes exactly `"`, `\` and the characters
/// below U+0020, with the short forms and the `\u00XX` form (lowercase hex) its
/// `write_char_escape` writes.
#[verifier::external_body]
fn json_string_literal(s: &str) -> (r: Result<String, String>)
    ensures
        match r {
            Ok(t) => t@ == json_string(s@),
            Err(_) => false,
        },
{
    match serde_json::to_string(s) {
        Ok(t) => Ok(t),
        Err(e) => Err(e.to_string()),
    }
}

/// Whether `c` may start a name of a classmap expression in a script: an ASCII letter or `_`.
pub open spec fn ident_start(c: char) -> bool {
    ('a' <= c <= 'z') || ('A' <= c <= 'Z') || c == '_'
}

/// The end of the run of ASCII word characters in `s` that starts at `j`.
pub open spec fn ident_end(s: Seq<char>, j: int) -> int
    decreases s.len() - j,
{
    if 0 <= j < s.len() && ascii_word_char(s[j]) {
        ident_end(s, j + 1)
    } else {
        j
    }
}

/// `ident_end` stays within `s` and past `j`, and stops at a character that is no word
/// character.
pub proof fn lemma_ident_end(s: Seq<char>, j: int)
    requires
        0 <= j <= s.len(),
    ensures
        j <= ident_end(s, j) <= s.len(),
        forall|k: int| j <= k < ident_end(s, j) ==> ascii_word_char(#[trigger] s[k]),
        ident_end(s, j) < s.len() ==> !ascii_word_char(s[ident_end(s, j)]),
    decreases s.len() - j,
{
    if j < s.len() && ascii_word_char(s[j]) {
        lemma_ident_end(s, j + 1);
    }
}

/// The end of the `.name` steps of `s` from `j` on: each step is `.`, a character that may
/// start a name, and the rest of the run of word characters.
pub open spec fn steps_end(s: Seq<char>, j: int) -> int
    decreases s.len() - j,
{
    if 0 <= j && j + 1 < s.len() && s[j] == '.' && ident_start(s[j + 1]) {
        proof {
            lemma_ident_end(s, j + 1);
        }
        steps_end(s, ident_end(s, j + 1))
    } else {
        j
    }
}

/// `steps_end` stays within `s` and does not go back.
pub proof fn lemma_steps_end(s: Seq<char>, j: int)
    requires
        0 <= j <= s.len(),
    ensures
        j <= steps_end(s, j) <= s.len(),
    decreases s.len() - j,
{
    if j + 1 < s.len() && s[j] == '.' && ident_start(s[j + 1]) {
        lemma_ident_end(s, j + 1);
        lemma_steps_end(s, ident_end(s, j + 1));
    }
}

/// `MAP`, the root of a classmap expression in a script.
pub open spec fn js_map_root() -> Seq<char> {
    seq!['M', 'A', 'P']
}

/// The separator of the names of a classmap expression in a script.
pub open spec fn dot() -> Seq<char> {
    seq!['.']
}

/// The end of the classmap expression that starts at `i` in `s`, if one does (the pattern
/// `\bMAP(?:\.[A-Za-z_][A-Za-z0-9_]*)+`): `MAP`, not preceded by a Unicode word character,
/// followed by at least one `.name` step, and as many as follow.
pub open spec fn js_map_match_end(s: Seq<char>, i: int) -> Option<int> {
    if 0 <= i && i + 3 <= s.len() && s.subrange(i, i + 3) == js_map_root() && (i == 0 || !unicode_word_char(
        s[i - 1],
    )) && steps_end(s, i + 3) > i + 3 {
        Some(steps_end(s, i + 3))
    } else {
        None
    }
}

/// What the classmap expression `s[i..e]` stands for: its names split at `.` (`MAP` first),
/// looked up strictly (see [`strict_lookup`](crate::classmap::strict_lookup)).
pub open spec fn js_map_replacement(s: Seq<char>, i: int, e: int, m: Mapping) -> Result<Option<Seq<char>>, Seq<char>> {
    let pieces = crate::text::split_by(s.subrange(i, e), dot());
    crate::classmap::strict_lookup(m, pieces, dot(), crate::classmap::joined(pieces, dot()))
}

/// `x` in front of a successful result; an error passes through.
pub open spec fn prepend_text(x: Seq<char>, r: Result<Seq<char>, Seq<char>>) -> Result<Seq<char>, Seq<char>> {
    match r {
        Ok(t) => Ok(x + t),
        Err(e) => Err(e),
    }
}

/// What replacing the classmap expressions of the script `s` from position `i` on gives.
/// Expressions are found left to right without overlap; each becomes the JSON string literal
/// of the value it stands for, stays as written when the classmap lacks even its first name,
/// or fails the whole run with the message of its lookup.
pub open spec fn js_maps_out(s: Seq<char>, i: int, m: Mapping) -> Result<Seq<char>, Seq<char>>
    decreases s.len() - i,
{
    if i < 0 || i >= s.len() {
        Ok(Seq::empty())
    } else {
        match js_map_match_end(s, i) {
            Some(e) => {
                proof {
                    lemma_steps_end(s, i + 3);
                }
                match js_map_replacement(s, i, e, m) {
                    Ok(Some(v)) => prepend_text(json_string(v), js_maps_out(s, e, m)),
                    Ok(None) => prepend_text(s.subrange(i, e), js_maps_out(s, e, m)),
                    Err(msg) => Err(msg),
                }
            },
            None => prepend_text(seq![s[i]], js_maps_out(s, i + 1, m)),
        }
    }
}

/// Whether `r` reports the outcome `o`: the same text, or the same message.
pub open spec fn text_reports(r: Result<String, String>, o: Result<Seq<char>, Seq<char>>) -> bool {
    match o {
        Ok(t) => r matches Ok(u) && u@ == t,
        Err(msg) => r matches Err(e) && e@ == msg,
    }
}

fn ascii_word(c: char) -> (r: bool)
    ensures
        r == ascii_word_char(c),
{
    ('a' <= c && c <= 'z') || ('A' <= c && c <= 'Z') || ('0' <= c && c <= '9') || c == '_'
}

fn name_start(c: char) -> (r: bool)
    ensures
        r == ident_start(c),
{
    ('a' <= c && c <= 'z') || ('A' <= c && c <= 'Z') || c == '_'
}

/// The end of the classmap expression that starts at `i`, if one does.
fn js_map_match_at(v: &[char], i: usize) -> (r: Option<usize>)
    requires
        i < v@.len(),
    ensures
        match r {
            Some(e) => js_map_match_end(v@, i as int) == Some(e as int),
            None => js_map_match_end(v@, i as int) is None,
        },
{
    let n = v.len();
    if n - i < 3 || v[i] != 'M' || v[i + 1] != 'A' || v[i + 2] != 'P' {
        proof {
            if i + 3 <= n && v@.subrange(i as int, i + 3) == js_map_root() {
                assert(v@.subrange(i as int, i + 3)[0] == v@[i as int]);
                assert(v@.subrange(i as int, i + 3)[1] == v@[i + 1]);
                assert(v@.subrange(i as int, i + 3)[2] == v@[i + 2]);
            }
        }
        return None;
    }
    assert(v@.subrange(i as int, i + 3) =~= js_map_root());
    if i > 0 && is_word_char(v[i - 1]) {
        return None;
    }
    let start = i + 3;
    let mut j = start;
    while j < n - 1 && v[j] == '.' && name_start(v[j + 1])
        invariant
            n == v@.len(),
            n >= 1,
            start <= j <= n,
            steps_end(v@, start as int) == steps_end(v@, j as int),
        decreases n - j,
    {
        proof {
            lemma_ident_end(v@, j + 1);
        }
        let mut k = j + 1;
        while k < n && ascii_word(v[k])
            invariant
                n == v@.len(),
                j + 1 <= k <= n,
                ident_end(v@, j + 1) == ident_end(v@, k as int),
            decreases n - k,
        {
            k += 1;
        }
        j = k;
    }
    if j > start {
        Some(j)
    } else {
        None
    }
}

/// The names of a classmap expression: `s` split at `.`, as owned strings.
fn dot_pieces(s: &str) -> (r: Vec<String>)
    ensures
        crate::classmap::strings_view(r@) == crate::text::split_by(s@, dot()),
{
    let chars = str_chars(s);
    let sep: Vec<char> = vec!['.'];
    assert(sep@ =~= dot());
    let pieces = crate::text::split_chars(chars.as_slice(), sep.as_slice());
    let mut r: Vec<String> = Vec::new();
    let mut k: usize = 0;
    while k < pieces.len()
        invariant
            k <= pieces@.len(),
            crate::classmap::chars_view(pieces@) == crate::text::split_by(s@, dot()),
            crate::classmap::strings_view(r@) == crate::classmap::chars_view(pieces@).take(k as int),
        decreases pieces@.len() - k,
    {
        let ghost old_r = r@;
        r.push(crate::text::string_from_chars(pieces[k].as_slice()));
        assert(crate::classmap::strings_view(r@) =~= crate::classmap::strings_view(old_r).push(pieces@[k as int]@));
        assert(crate::classmap::strings_view(r@) =~= crate::classmap::chars_view(pieces@).take(k + 1));
        k += 1;
    }
    assert(crate::classmap::chars_view(pieces@).take(k as int) =~= crate::classmap::chars_view(pieces@));
    r
}

/// Looks up the classmap expression `v[i..e]` (see [`js_map_replacement`]).
fn js_map_lookup(v: &Vec<char>, i: usize, e: usize, mapping: &Mapping) -> (r: Result<Option<String>, String>)
    requires
        i <= e <= v@.len(),
    ensures
        crate::classmap::strict_reports(r, js_map_replacement(v@, i as int, e as int, *mapping)),
{
    let path = crate::text::string_from_chars(&crate::transpile::css::slice_range(v.as_slice(), i, e));
    let pieces = dot_pieces(path.as_str());
    proof {
        reveal_strlit(".");
        assert("."@ =~= dot());
    }
    let whole = crate::classmap::join_prefix(&pieces, pieces.len(), ".");
    assert(crate::classmap::strings_view(pieces@).take(pieces@.len() as int) =~= crate::classmap::strings_view(pieces@));
    crate::classmap::strict_lookup_strings(mapping, &pieces, ".", whole.as_str())
}

proof fn lemma_prepend_text(a: Seq<char>, b: Seq<char>, r: Result<Seq<char>, Seq<char>>)
    ensures
        prepend_text(a, prepend_text(b, r)) == prepend_text(a + b, r),
{
    match r {
        Ok(t) => {
            assert(a + (b + t) =~= (a + b) + t);
        },
        Err(_) => {},
    }
}

/// Replaces the classmap expressions of a script (`MAP.a.b`, not preceded by a word
/// character) by the JSON string literals of the classes the classmap gives for them, as
/// [`js_maps_out`] says.  An expression whose first name the classmap lacks stays as written;
/// one found only in part, or ending at an inner node, fails with the lookup's message.
pub fn remap_js_classmap_expressions(code: &str, mapping: &Mapping) -> (r: Result<String, String>)
    ensures
        text_reports(r, js_maps_out(code@, 0, *mapping)),
{
    let ghost m = *mapping;
    let v = str_chars(code);
    let n = v.len();
    let mut out = String::new();
    let mut i: usize = 0;
    assert(out@ + js_maps_out(v@, 0, m)->Ok_0 =~= js_maps_out(v@, 0, m)->Ok_0);
    while i < n
        invariant
            m == *mapping,
            n == v@.len(),
            v@ == code@,
            i <= n,
            js_maps_out(v@, 0, m) == prepend_text(out@, js_maps_out(v@, i as int, m)),
        decreases n - i,
    {
        let ghost before = out@;
        let ghost i0 = i as int;
        let ghost mut delta: Seq<char> = Seq::empty();
        match js_map_match_at(v.as_slice(), i) {
            Some(e) => {
                proof {
                    lemma_steps_end(v@, i0 + 3);
                }
                match js_map_lookup(&v, i, e, mapping) {
                    Ok(Some(val)) => {
                        match json_string_literal(val.as_str()) {
                            Ok(lit) => {
                                out.push_str(lit.as_str());
                                proof { delta = lit@; }
                            },
                            Err(_) => {
                                proof {
                                    assert(false);
                                }
                                return Err(String::new());
                            },
                        }
                    },
                    Ok(None) => {
                        crate::text::push_range(&mut out, v.as_slice(), i, e);
                        proof { delta = v@.subrange(i0, e as int); }
                    },
                    Err(msg) => {
                        return Err(msg);
                    },
                }
                i = e;
            },
            None => {
                out.push(v[i]);
                proof { delta = seq![v@[i0]]; }
                i += 1;
            },
        }
        assert(out@ =~= before + delta);
        assert(js_maps_out(v@, i0, m) == prepend_text(delta, js_maps_out(v@, i as int, m)));
        proof {
            lemma_prepend_text(before, delta, js_maps_out(v@, i as int, m));
        }
    }
    assert(out@ + Seq::<char>::empty() =~= out@);
    Ok(out)
}

/// A script in which `MAP` does not occur holds no classmap expression: it comes back
/// unchanged, whatever the classmap.
pub proof fn law_scripts_without_map_unchanged(s: Seq<char>, m: Mapping)
    requires
        !crate::text::contains_seq(s, js_map_root()),
    ensures
        js_maps_out(s, 0, m) == Ok::<Seq<char>, Seq<char>>(s),
{
    lemma_no_map_from(s, 0, m);
    assert(s.subrange(0, s.len() as int) =~= s);
}

proof fn lemma_no_map_from(s: Seq<char>, i: int, m: Mapping)
    requires
        0 <= i <= s.len(),
        !crate::text::contains_seq(s, js_map_root()),
    ensures
        js_maps_out(s, i, m) == Ok::<Seq<char>, Seq<char>>(s.subrange(i, s.len() as int)),
    decreases s.len() - i,
{
    if i < s.len() {
        assert(js_map_match_end(s, i) is None) by {
            if i + 3 <= s.len() && s.subrange(i, i + 3) == js_map_root() {
                assert(s.subrange(i, i + js_map_root().len()) == js_map_root());
            }
        }
        lemma_no_map_from(s, i + 1, m);
        assert(seq![s[i]] + s.subrange(i + 1, s.len() as int) =~= s.subrange(i, s.len() as int));
    } else {
        assert(s.subrange(i, s.len() as int) =~= Seq::<char>::empty());
    }
}

} // verus!
