use vstd::prelude::*;

use crate::classmap::{CssMappingRef, Mapping, ResolveError};
use crate::build::graph::{kind_name, SourceKind, SourceNode};
use crate::error::Error;
use crate::transpile::TranspileOutput;
use crate::text::{chars_start_with, push_byte_chars, push_range, skip_whitespace, str_chars};

verus! {

/// Which rules turn a class name into a classmap lookup.
#[derive(Clone, Copy, Debug, PartialEq, Eq, Structural)]
pub enum ClassRules {
    /// The name is split at `__` and followed like [`crate::classmap::Mapping::lookup`],
    /// a name not found being tried again with `-` read as `_`; a walk that meets a leaf too
    /// early or ends at an inner node is a `NotALeaf` error.
    Css,
    /// The name is split at `__` and looked up strictly
    /// ([`crate::classmap::strict_lookup`]): no dash fallback, nothing when not even the
    /// first part is found, an error message when only some parts are.
    Strict,
}

/// Why a remapping failed: the path prefix of a `NotALeaf` lookup error, or the message of
/// a strict lookup.
pub enum RemapError {
    Path(Seq<Seq<char>>),
    Message(Seq<char>),
}

/// The result of remapping.
pub type Remapped = Result<Seq<char>, RemapError>;

/// How a remapping fails in code that serves both rules.
#[derive(Debug)]
pub enum RemapFailure {
    /// A lookup error under the CSS rules.
    Classmap(Error),
    /// The message of a strict lookup.
    Message(String),
}

/// `x` in front of a successful result; an error passes through.
pub open spec fn prepend(x: Seq<char>, r: Remapped) -> Remapped {
    match r {
        Ok(s) => Ok(x + s),
        Err(e) => Err(e),
    }
}

/// Whether an exec result reports the remapping result `s`.
pub open spec fn reports(r: Result<String, Error>, s: Remapped) -> bool {
    match s {
        Ok(t) => r matches Ok(u) && u@ == t,
        Err(RemapError::Path(p)) => r matches Err(Error::Classmap(ResolveError::NotALeaf { path }))
            && crate::classmap::strings_view(path@) == p,
        Err(RemapError::Message(_)) => false,
    }
}

/// Whether a result with a message error reports the remapping result `s`.
pub open spec fn reports_message(r: Result<String, String>, s: Remapped) -> bool {
    match s {
        Ok(t) => r matches Ok(u) && u@ == t,
        Err(RemapError::Path(_)) => false,
        Err(RemapError::Message(m)) => r matches Err(e) && e@ == m,
    }
}

/// Whether a result of the code that serves both rules reports the remapping result `s`.
pub open spec fn reports_failure(r: Result<String, RemapFailure>, s: Remapped) -> bool {
    match s {
        Ok(t) => r matches Ok(u) && u@ == t,
        Err(RemapError::Path(p)) => r matches Err(RemapFailure::Classmap(Error::Classmap(ResolveError::NotALeaf { path })))
            && crate::classmap::strings_view(path@) == p,
        Err(RemapError::Message(m)) => r matches Err(RemapFailure::Message(e)) && e@ == m,
    }
}

/// Whether `c` may appear in a class name: an ASCII letter or digit, `-` or `_`.
pub open spec fn is_class_char(c: char) -> bool {
    ('a' <= c <= 'z') || ('A' <= c <= 'Z') || ('0' <= c <= '9') || c == '-' || c == '_'
}

/// The end of the run of class-name characters in `p` that starts at `j`.
pub open spec fn class_end(p: Seq<char>, j: int) -> int
    decreases p.len() - j,
{
    if 0 <= j < p.len() && is_class_char(p[j]) {
        class_end(p, j + 1)
    } else {
        j
    }
}

/// The class-name separator `__`.
pub open spec fn dunder() -> Seq<char> {
    seq!['_', '_']
}

/// The outcome of looking up a CSS class name in the classmap (see [`CssMappingRef::lookup`]).
pub open spec fn class_lookup(m: Mapping, name: Seq<char>) -> crate::classmap::LookupOutcome {
    crate::classmap::walk(m, crate::text::split_by(name, dunder()), 0, true)
}

/// What `.name` in a selector becomes: `.` and the class the classmap gives for `name`, or
/// `.name` unchanged when the classmap does not have it.
pub open spec fn class_replacement(m: Mapping, name: Seq<char>, rules: ClassRules) -> Remapped {
    match rules {
        ClassRules::Css => match class_lookup(m, name) {
            crate::classmap::LookupOutcome::Found(v) => Ok(seq!['.'] + v),
            crate::classmap::LookupOutcome::Missing => Ok(seq!['.'] + name),
            crate::classmap::LookupOutcome::NotALeaf(k) => Err(
                RemapError::Path(crate::text::split_by(name, dunder()).take(k as int)),
            ),
        },
        ClassRules::Strict => match strict_class_lookup(m, name) {
            Ok(Some(v)) => Ok(seq!['.'] + v),
            Ok(None) => Ok(seq!['.'] + name),
            Err(msg) => Err(RemapError::Message(msg)),
        },
    }
}

/// The strict lookup of a class name: its `__`-separated parts, with the name itself named
/// when it ends at an inner node.
pub open spec fn strict_class_lookup(m: Mapping, name: Seq<char>) -> Result<Option<Seq<char>>, Seq<char>> {
    crate::classmap::strict_lookup(m, crate::text::split_by(name, dunder()), dunder(), name)
}

/// The remapped text of the selector prelude `p` from position `i`, inside the string opened
/// by `quote` (if any) and `depth` attribute brackets deep.  Class names outside strings and
/// brackets are remapped; every other character is written as the bytes of its UTF-8 form,
/// each read as one character.
pub open spec fn prelude_out(p: Seq<char>, i: int, quote: Option<char>, depth: nat, m: Mapping, rules: ClassRules) -> Remapped
    decreases p.len() - i,
{
    if i < 0 || i >= p.len() {
        Ok(Seq::empty())
    } else {
        let c = p[i];
        match quote {
            Some(q) => if c == '\\' {
                if i + 1 < p.len() {
                    prepend(seq!['\\'] + crate::text::byte_chars(p[i + 1]), prelude_out(p, i + 2, quote, depth, m, rules))
                } else {
                    prepend(seq!['\\'], prelude_out(p, i + 1, quote, depth, m, rules))
                }
            } else {
                prepend(crate::text::byte_chars(c), prelude_out(p, i + 1, if c == q { None } else { quote }, depth, m, rules))
            },
            None => if c == '\'' || c == '"' {
                prepend(seq![c], prelude_out(p, i + 1, Some(c), depth, m, rules))
            } else if c == '[' {
                prepend(seq!['['], prelude_out(p, i + 1, None, depth + 1, m, rules))
            } else if c == ']' {
                prepend(seq![']'], prelude_out(p, i + 1, None, if depth > 0 { (depth - 1) as nat } else { depth }, m, rules))
            } else if c == '.' && depth == 0 {
                proof {
                    lemma_class_end(p, i + 1);
                }
                let end = class_end(p, i + 1);
                if end <= i + 1 {
                    prepend(seq!['.'], prelude_out(p, i + 1, None, depth, m, rules))
                } else {
                    match class_replacement(m, p.subrange(i + 1, end), rules) {
                        Ok(r) => prepend(r, prelude_out(p, end, None, depth, m, rules)),
                        Err(e) => Err(e),
                    }
                }
            } else {
                prepend(crate::text::byte_chars(c), prelude_out(p, i + 1, None, depth, m, rules))
            },
        }
    }
}

/// `class_end` lies between `j` and the end.
pub proof fn lemma_class_end(p: Seq<char>, j: int)
    requires
        0 <= j <= p.len(),
    ensures
        j <= class_end(p, j) <= p.len(),
        forall|k: int| j <= k < class_end(p, j) ==> is_class_char(#[trigger] p[k]),
        class_end(p, j) < p.len() ==> !is_class_char(p[class_end(p, j)]),
    decreases p.len() - j,
{
    if j < p.len() && is_class_char(p[j]) {
        lemma_class_end(p, j + 1);
    }
}

/// Whether `c` is an ASCII letter or digit, `-` or `_`.
fn class_char(c: char) -> (r: bool)
    ensures
        r == is_class_char(c),
{
    ('a' <= c && c <= 'z') || ('A' <= c && c <= 'Z') || ('0' <= c && c <= '9') || c == '-' || c == '_'
}

/// Looks up the CSS class `name` in the classmap: the class it maps to, `None` when the
/// classmap does not have it, or the `NotALeaf` error of the lookup.
pub fn remap_class_name(name: &str, mapping: &CssMappingRef<'_>) -> (r: Result<Option<String>, Error>)
    ensures
        match class_lookup(mapping.mapping(), name@) {
            crate::classmap::LookupOutcome::Found(v) => r matches Ok(Some(s)) && s@ == v,
            crate::classmap::LookupOutcome::Missing => r matches Ok(None),
            crate::classmap::LookupOutcome::NotALeaf(k) => r matches Err(Error::Classmap(ResolveError::NotALeaf { path }))
                && crate::classmap::strings_view(path@) == crate::text::split_by(name@, dunder()).take(k as int),
        },
{
    proof {
        assert(seq!['_', '_'] =~= dunder());
    }
    match mapping.lookup(name) {
        Ok(Some(v)) => Ok(Some(crate::text::to_owned_string(v))),
        Ok(None) => Ok(None),
        Err(e) => Err(e),
    }
}

/// Whether `r` reports the replacement `o` of the class `name`: the class found (or `None`
/// when the name stays), or the failure.
pub open spec fn replacement_reports(r: Result<Option<String>, RemapFailure>, name: Seq<char>, o: Remapped) -> bool {
    match o {
        Ok(t) => r matches Ok(v) && t == seq!['.'] + match v {
            Some(c) => c@,
            None => name,
        },
        Err(RemapError::Path(p)) => r matches Err(RemapFailure::Classmap(Error::Classmap(ResolveError::NotALeaf { path })))
            && crate::classmap::strings_view(path@) == p,
        Err(RemapError::Message(m)) => r matches Err(RemapFailure::Message(e)) && e@ == m,
    }
}

/// The pieces of `s` between the occurrences of `__`, as owned strings.
fn dunder_pieces(s: &str) -> (r: Vec<String>)
    ensures
        crate::classmap::strings_view(r@) == crate::text::split_by(s@, dunder()),
{
    let chars = str_chars(s);
    let sep: Vec<char> = vec!['_', '_'];
    assert(sep@ =~= dunder());
    let pieces = crate::text::split_chars(chars.as_slice(), sep.as_slice());
    let mut r: Vec<String> = Vec::new();
    let mut k: usize = 0;
    while k < pieces.len()
        invariant
            k <= pieces@.len(),
            crate::classmap::chars_view(pieces@) == crate::text::split_by(s@, dunder()),
            crate::classmap::strings_view(r@) == crate::classmap::chars_view(pieces@).take(k as int),
        decreases pieces@.len() - k,
    {
        let ghost old_r = r@;
        r.push(crate::text::string_from_chars(pieces[k].as_slice()));
        assert(crate::classmap::strings_view(r@) =~= crate::classmap::strings_view(old_r).push(pieces@[k as int]@));
        assert(crate::classmap::strings_view(r@) =~= crate::classmap::chars_view(pieces@).take(k + 1));
        k += 1;
    }
    assert(crate::classmap::chars_view(pieces@).take(k as int) =~= crate::classmap::chars_view(pieces@));
    r
}

/// Looks up the class `name` under `rules` (see [`class_replacement`]).
fn class_name_lookup(name: &str, mapping: &Mapping, rules: ClassRules) -> (r: Result<Option<String>, RemapFailure>)
    ensures
        replacement_reports(r, name@, class_replacement(*mapping, name@, rules)),
{
    match rules {
        ClassRules::Css => {
            let view = CssMappingRef::new(mapping);
            match remap_class_name(name, &view) {
                Ok(v) => Ok(v),
                Err(e) => Err(RemapFailure::Classmap(e)),
            }
        },
        ClassRules::Strict => {
            let pieces = dunder_pieces(name);
            proof {
                reveal_strlit("__");
                assert("__"@ =~= dunder());
            }
            match crate::classmap::strict_lookup_strings(mapping, &pieces, "__", name) {
                Ok(v) => Ok(v),
                Err(m) => Err(RemapFailure::Message(m)),
            }
        },
    }
}

/// Remaps the class names of a selector prelude held as characters.
fn remap_prelude_chars(p: &[char], mapping: &Mapping, rules: ClassRules) -> (r: Result<String, RemapFailure>)
    ensures
        reports_failure(r, prelude_out(p@, 0, None, 0, *mapping, rules)),
{
    let ghost m = *mapping;
    let mut out = String::new();
    let mut i: usize = 0;
    let mut quote: Option<char> = None;
    let mut depth: usize = 0;
    while i < p.len()
        invariant
            m == *mapping,
            i <= p@.len(),
            depth <= i,
            prelude_out(p@, 0, None, 0, m, rules) == prepend(out@, prelude_out(p@, i as int, quote, depth as nat, m, rules)),
        decreases p@.len() - i,
    {
        let c = p[i];
        let ghost before = out@;
        let ghost i0 = i as int;
        let ghost q0 = quote;
        let ghost d0 = depth as nat;
        let ghost mut delta: Seq<char> = Seq::empty();
        match quote {
            Some(q) => {
                if c == '\\' {
                    out.push('\\');
                    if i + 1 < p.len() {
                        push_byte_chars(&mut out, p[i + 1]);
                        proof { delta = (seq!['\\'] + crate::text::byte_chars(p@[i0 + 1])); }
                        i += 2;
                    } else {
                        proof { delta = seq!['\\']; }
                        i += 1;
                    }
                } else {
                    push_byte_chars(&mut out, c);
                    proof { delta = crate::text::byte_chars(c); }
                    if c == q {
                        quote = None;
                    }
                    i += 1;
                }
            },
            None => {
                if c == '\'' || c == '"' {
                    quote = Some(c);
                    out.push(c);
                    proof { delta = seq![c]; }
                    i += 1;
                } else if c == '[' {
                    depth += 1;
                    out.push('[');
                    proof { delta = seq!['[']; }
                    i += 1;
                } else if c == ']' {
                    if depth > 0 {
                        depth -= 1;
                    }
                    out.push(']');
                    proof { delta = seq![']']; }
                    i += 1;
                } else if c == '.' && depth == 0 {
                    let start = i + 1;
                    let mut end = start;
                    proof { lemma_class_end(p@, start as int); }
                    while end < p.len() && class_char(p[end])
                        invariant
                            start <= end <= p@.len(),
                            class_end(p@, start as int) == class_end(p@, end as int),
                        decreases p@.len() - end,
                    {
                        end += 1;
                    }
                    assert(class_end(p@, end as int) == end);
                    if end == start {
                        out.push('.');
                        proof { delta = seq!['.']; }
                        i += 1;
                    } else {
                        let name = crate::text::string_from_chars(&slice_range(p, start, end));
                        assert(name@ == p@.subrange(start as int, end as int));
                        match class_name_lookup(name.as_str(), mapping, rules) {
                            Ok(Some(v)) => {
                                out.push('.');
                                out.push_str(v.as_str());
                                proof { delta = (seq!['.'] + v@); }
                            },
                            Ok(None) => {
                                out.push('.');
                                out.push_str(name.as_str());
                                proof { delta = (seq!['.'] + name@); }
                            },
                            Err(e) => {
                                return Err(e);
                            },
                        }
                        i = end;
                    }
                } else {
                    push_byte_chars(&mut out, c);
                    proof { delta = crate::text::byte_chars(c); }
                    i += 1;
                }
            },
        }
        assert(out@ =~= before + delta);
        assert(prelude_out(p@, i0, q0, d0, m, rules) == prepend(delta, prelude_out(p@, i as int, quote, depth as nat, m, rules)));
        assert(out@.skip(before.len() as int) =~= delta);
        assert(prepend(before, prepend(out@.skip(before.len() as int), prelude_out(p@, i as int, quote, depth as nat, m, rules)))
            == prepend(out@, prelude_out(p@, i as int, quote, depth as nat, m, rules))) by {
            assert(before + out@.skip(before.len() as int) =~= out@);
            match prelude_out(p@, i as int, quote, depth as nat, m, rules) {
                Ok(t) => {
                    assert(before + (out@.skip(before.len() as int) + t) =~= out@ + t);
                },
                Err(_) => {},
            }
        }
    }
    assert(out@ + Seq::<char>::empty() =~= out@);
    Ok(out)
}

/// The characters `s[from..to]`.
pub fn slice_range(s: &[char], from: usize, to: usize) -> (r: Vec<char>)
    requires
        from <= to <= s@.len(),
    ensures
        r@ == s@.subrange(from as int, to as int),
{
    let mut r: Vec<char> = Vec::new();
    let mut k = from;
    while k < to
        invariant
            from <= k <= to <= s@.len(),
            r@ == s@.subrange(from as int, k as int),
        decreases to - k,
    {
        r.push(s[k]);
        assert(r@ =~= s@.subrange(from as int, k + 1));
        k += 1;
    }
    r
}

/// Remaps the class names of the selector prelude `prelude`: each `.name` outside strings
/// and attribute brackets becomes `.` and the class the classmap gives for it; other text
/// is copied byte by byte.
pub fn remap_selector_prelude(prelude: &str, mapping: &CssMappingRef<'_>) -> (r: Result<String, Error>)
    ensures
        reports(r, prelude_out(prelude@, 0, None, 0, mapping.mapping(), ClassRules::Css)),
{
    let chars = str_chars(prelude);
    let r = remap_prelude_chars(chars.as_slice(), mapping.inner(), ClassRules::Css);
    proof {
        lemma_prelude_error_kind(chars@, 0, None, 0, mapping.mapping(), ClassRules::Css);
    }
    css_result(r)
}

/// Remaps the class names of a selector prelude under `rules` (see [`prelude_out`]).
pub fn remap_prelude_with(prelude: &str, mapping: &Mapping, rules: ClassRules) -> (r: Result<String, RemapFailure>)
    ensures
        reports_failure(r, prelude_out(prelude@, 0, None, 0, *mapping, rules)),
{
    let chars = str_chars(prelude);
    remap_prelude_chars(chars.as_slice(), mapping, rules)
}

/// The result of code that serves both rules, under the strict rules.
pub fn strict_result(r: Result<String, RemapFailure>) -> (e: Result<String, String>)
    requires
        !(r matches Err(RemapFailure::Classmap(_))),
    ensures
        match r {
            Ok(s) => e == Ok::<String, String>(s),
            Err(RemapFailure::Message(m)) => e == Err::<String, String>(m),
            Err(RemapFailure::Classmap(_)) => true,
        },
{
    match r {
        Ok(s) => Ok(s),
        Err(RemapFailure::Message(m)) => Err(m),
        Err(RemapFailure::Classmap(_)) => Err(String::new()),
    }
}

/// The result of code that serves both rules, under the CSS rules.
fn css_result(r: Result<String, RemapFailure>) -> (e: Result<String, Error>)
    requires
        !(r matches Err(RemapFailure::Message(_))),
    ensures
        match r {
            Ok(s) => e == Ok::<String, Error>(s),
            Err(RemapFailure::Classmap(x)) => e == Err::<String, Error>(x),
            Err(RemapFailure::Message(_)) => true,
        },
{
    match r {
        Ok(s) => Ok(s),
        Err(RemapFailure::Classmap(x)) => Err(x),
        Err(RemapFailure::Message(m)) => Err(Error::Plan(m)),
    }
}

/// Whether a failure is of the kind `rules` produce: a `NotALeaf` path under the CSS rules,
/// a message under the strict rules.
pub open spec fn error_fits(r: Remapped, rules: ClassRules) -> bool {
    match r {
        Ok(_) => true,
        Err(RemapError::Path(_)) => rules is Css,
        Err(RemapError::Message(_)) => rules is Strict,
    }
}

/// A prelude fails only with the kind of error its rules produce.
pub proof fn lemma_prelude_error_kind(p: Seq<char>, i: int, quote: Option<char>, depth: nat, m: Mapping, rules: ClassRules)
    ensures
        error_fits(prelude_out(p, i, quote, depth, m, rules), rules),
    decreases p.len() - i,
{
    if 0 <= i < p.len() {
        let c = p[i];
        match quote {
            Some(q) => {
                if c == '\\' && i + 1 < p.len() {
                    lemma_prelude_error_kind(p, i + 2, quote, depth, m, rules);
                } else if c == '\\' {
                    lemma_prelude_error_kind(p, i + 1, quote, depth, m, rules);
                } else {
                    lemma_prelude_error_kind(p, i + 1, if c == q { None } else { quote }, depth, m, rules);
                }
            },
            None => {
                if c == '.' && depth == 0 {
                    lemma_class_end(p, i + 1);
                    let end = class_end(p, i + 1);
                    if end <= i + 1 {
                        lemma_prelude_error_kind(p, i + 1, None, depth, m, rules);
                    } else {
                        lemma_prelude_error_kind(p, end, None, depth, m, rules);
                    }
                } else {
                    let d2: nat = if c == '[' {
                        depth + 1
                    } else if c == ']' {
                        if depth > 0 { (depth - 1) as nat } else { depth }
                    } else {
                        depth
                    };
                    let q2 = if c == '\'' || c == '"' { Some(c) } else { None };
                    lemma_prelude_error_kind(p, i + 1, q2, d2, m, rules);
                }
            },
        }
    }
}


/// Whether the at-rule prelude `p` opens a keyframes block (`@keyframes` or one of its vendor
/// forms, in any ASCII case, after leading whitespace).
pub open spec fn keyframes_prelude(p: Seq<char>) -> bool {
    let l = crate::text::ascii_lower(crate::text::trim_start(p));
    ||| crate::text::starts_with(l, "@keyframes"@)
    ||| crate::text::starts_with(l, "@-webkit-keyframes"@)
    ||| crate::text::starts_with(l, "@-moz-keyframes"@)
    ||| crate::text::starts_with(l, "@-ms-keyframes"@)
}

/// `v[from..]` with ASCII upper-case letters turned to lower case.
fn lower_from(v: &[char], from: usize) -> (r: Vec<char>)
    requires
        from <= v@.len(),
    ensures
        r@ == crate::text::ascii_lower(v@.skip(from as int)),
{
    let mut r: Vec<char> = Vec::new();
    let mut k = from;
    while k < v.len()
        invariant
            from <= k <= v@.len(),
            r@ == crate::text::ascii_lower(v@.subrange(from as int, k as int)),
        decreases v@.len() - k,
    {
        let c = v[k];
        let l = if 'A' <= c && c <= 'Z' {
            char_from_lower(c)
        } else {
            c
        };
        r.push(l);
        assert(crate::text::ascii_lower(v@.subrange(from as int, k + 1)) =~= crate::text::ascii_lower(
            v@.subrange(from as int, k as int),
        ).push(l));
        k += 1;
    }
    assert(v@.subrange(from as int, v@.len() as int) =~= v@.skip(from as int));
    r
}

/// The lower-case form of the ASCII upper-case letter `c`.
fn char_from_lower(c: char) -> (r: char)
    requires
        'A' <= c <= 'Z',
    ensures
        r == ((c as u32) + 32) as char,
{
    let v = (c as u8) + 32;
    v as char
}

/// Whether the characters from `from` on open a keyframes block.
fn keyframes_chars(v: &[char], from: usize) -> (r: bool)
    requires
        from <= v@.len(),
    ensures
        r == keyframes_prelude(v@.skip(from as int)),
{
    let k = skip_whitespace(v, from);
    let lower = lower_from(v, k);
    chars_start_with(lower.as_slice(), str_chars("@keyframes").as_slice())
        || chars_start_with(lower.as_slice(), str_chars("@-webkit-keyframes").as_slice())
        || chars_start_with(lower.as_slice(), str_chars("@-moz-keyframes").as_slice())
        || chars_start_with(lower.as_slice(), str_chars("@-ms-keyframes").as_slice())
}

/// Whether the at-rule prelude `prelude` opens a keyframes block.
pub fn is_keyframes_prelude(prelude: &str) -> (r: bool)
    ensures
        r == keyframes_prelude(prelude@),
{
    let v = str_chars(prelude);
    assert(v@.skip(0) =~= v@);
    keyframes_chars(v.as_slice(), 0)
}

/// What rewriting the class names in the rule selectors of the stylesheet `s` gives, from
/// position `i`, with the unwritten text starting at `cursor`.  `comment` and `quote` say
/// whether the scan is inside a comment or a string; `stack` has one entry per open block,
/// true for a keyframes block.  The text before each `{` is a prelude: an at-rule prelude, or
/// any prelude inside a keyframes block, is copied; any other is remapped as
/// [`prelude_out`] says.
pub open spec fn sel_out(
    s: Seq<char>,
    i: int,
    cursor: int,
    comment: bool,
    quote: Option<char>,
    stack: Seq<bool>,
    m: Mapping,
    rules: ClassRules,
) -> Remapped
    decreases s.len() + 1 - i,
{
    if i < 0 || i >= s.len() {
        Ok(if 0 <= cursor < s.len() { s.subrange(cursor, s.len() as int) } else { Seq::empty() })
    } else {
        let c = s[i];
        if comment {
            if c == '*' && i + 1 < s.len() && s[i + 1] == '/' {
                sel_out(s, i + 2, cursor, false, quote, stack, m, rules)
            } else {
                sel_out(s, i + 1, cursor, true, quote, stack, m, rules)
            }
        } else if quote is Some {
            if c == '\\' {
                sel_out(s, i + 2, cursor, false, quote, stack, m, rules)
            } else if quote == Some(c) {
                sel_out(s, i + 1, cursor, false, None, stack, m, rules)
            } else {
                sel_out(s, i + 1, cursor, false, quote, stack, m, rules)
            }
        } else if c == '/' && i + 1 < s.len() && s[i + 1] == '*' {
            sel_out(s, i + 2, cursor, true, None, stack, m, rules)
        } else if c == '\'' || c == '"' {
            sel_out(s, i + 1, cursor, false, Some(c), stack, m, rules)
        } else if c == '{' {
            let prelude = s.subrange(cursor, i);
            let trimmed = crate::text::trim_start(prelude);
            if trimmed.len() > 0 && trimmed[0] == '@' {
                prepend(prelude.push('{'), sel_out(s, i + 1, i + 1, false, None, stack.push(keyframes_prelude(trimmed)), m, rules))
            } else if stack.contains(true) {
                prepend(prelude.push('{'), sel_out(s, i + 1, i + 1, false, None, stack.push(false), m, rules))
            } else {
                match prelude_out(prelude, 0, None, 0, m, rules) {
                    Ok(r) => prepend(r.push('{'), sel_out(s, i + 1, i + 1, false, None, stack.push(false), m, rules)),
                    Err(e) => Err(e),
                }
            }
        } else if c == '}' {
            prepend(
                s.subrange(cursor, i).push('}'),
                sel_out(s, i + 1, i + 1, false, None, if stack.len() > 0 { stack.drop_last() } else { stack }, m, rules),
            )
        } else if c == ';' {
            prepend(s.subrange(cursor, i).push(';'), sel_out(s, i + 1, i + 1, false, None, stack, m, rules))
        } else {
            sel_out(s, i + 1, cursor, false, None, stack, m, rules)
        }
    }
}

/// Whether some entry of `v` is true.
fn any_true(v: &Vec<bool>) -> (r: bool)
    ensures
        r == v@.contains(true),
{
    let mut k: usize = 0;
    while k < v.len()
        invariant
            k <= v@.len(),
            forall|j: int| 0 <= j < k ==> !v@[j],
        decreases v@.len() - k,
    {
        if v[k] {
            assert(v@[k as int] == true);
            return true;
        }
        k += 1;
    }
    proof {
        if v@.contains(true) {
            let j = choose|j: int| 0 <= j < v@.len() && v@[j] == true;
            assert(!v@[j]);
        }
    }
    false
}


/// `prepend` of two pieces is `prepend` of the pieces joined.
proof fn lemma_prepend_prepend(a: Seq<char>, b: Seq<char>, r: Remapped)
    ensures
        prepend(a, prepend(b, r)) == prepend(a + b, r),
{
    match r {
        Ok(t) => {
            assert(a + (b + t) =~= (a + b) + t);
        },
        Err(_) => {},
    }
}

/// Rewrites the class names in the rule selectors of the stylesheet `css`, as [`sel_out`]
/// says: comments and strings are skipped, at-rule preludes and the preludes inside keyframes
/// blocks are copied, and every other prelude is remapped by [`remap_selector_prelude`].
pub fn remap_selectors(css: &str, mapping: &CssMappingRef<'_>) -> (r: Result<String, Error>)
    ensures
        reports(r, sel_out(css@, 0, 0, false, None, Seq::empty(), mapping.mapping(), ClassRules::Css)),
{
    let r = remap_selectors_with(css, mapping.inner(), ClassRules::Css);
    proof {
        lemma_sel_error_kind(css@, 0, 0, false, None, Seq::empty(), mapping.mapping(), ClassRules::Css);
    }
    css_result(r)
}

/// Rewrites the class names in the rule selectors of `css` under `rules` (see [`sel_out`]).
pub fn remap_selectors_with(css: &str, mapping: &Mapping, rules: ClassRules) -> (r: Result<String, RemapFailure>)
    ensures
        reports_failure(r, sel_out(css@, 0, 0, false, None, Seq::empty(), *mapping, rules)),
{
    let ghost m = *mapping;
    let v = str_chars(css);
    let n = v.len();
    let mut out = String::new();
    let mut cursor: usize = 0;
    let mut comment = false;
    let mut quote: Option<char> = None;
    let mut stack: Vec<bool> = Vec::new();
    let mut i: usize = 0;
    assert(out@ + Seq::<char>::empty() =~= out@);
    while i < n
        invariant
            m == *mapping,
            n == v@.len(),
            v@ == css@,
            cursor <= i <= n,
            comment ==> quote is None,
            sel_out(v@, 0, 0, false, None, Seq::empty(), m, rules) == prepend(
                out@,
                sel_out(v@, i as int, cursor as int, comment, quote, stack@, m, rules),
            ),
        decreases n - i,
    {
        let c = v[i];
        let ghost before = out@;
        let ghost i0 = i as int;
        let ghost cur0 = cursor as int;
        let ghost com0 = comment;
        let ghost q0 = quote;
        let ghost st0 = stack@;
        let ghost mut delta: Seq<char> = Seq::empty();
        if comment {
            if c == '*' && i + 1 < n && v[i + 1] == '/' {
                comment = false;
                i += 2;
            } else {
                i += 1;
            }
        } else if quote.is_some() {
            if c == '\\' {
                if i + 1 < n {
                    i += 2;
                } else {
                    i = n;
                    assert(sel_out(v@, i0 + 2, cur0, false, q0, st0, m, rules) == sel_out(v@, n as int, cur0, false, q0, st0, m, rules));
                }
            } else {
                if quote == Some(c) {
                    quote = None;
                }
                i += 1;
            }
        } else if c == '/' && i + 1 < n && v[i + 1] == '*' {
            comment = true;
            i += 2;
        } else if c == '\'' || c == '"' {
            quote = Some(c);
            i += 1;
        } else if c == '{' {
            let p = slice_range(v.as_slice(), cursor, i);
            let k = skip_whitespace(p.as_slice(), 0);
            assert(p@.skip(0) =~= p@);
            let ghost trimmed = p@.skip(k as int);
            if k < p.len() && p[k] == '@' {
                let kf = keyframes_chars(p.as_slice(), k);
                push_range(&mut out, v.as_slice(), cursor, i);
                out.push('{');
                stack.push(kf);
                proof { delta = p@.push('{'); }
            } else if any_true(&stack) {
                push_range(&mut out, v.as_slice(), cursor, i);
                out.push('{');
                stack.push(false);
                proof { delta = p@.push('{'); }
            } else {
                match remap_prelude_chars(p.as_slice(), mapping, rules) {
                    Ok(t) => {
                        out.push_str(t.as_str());
                        out.push('{');
                        stack.push(false);
                        proof { delta = t@.push('{'); }
                    },
                    Err(e) => {
                        return Err(e);
                    },
                }
            }
            i += 1;
            cursor = i;
        } else if c == '}' {
            push_range(&mut out, v.as_slice(), cursor, i);
            out.push('}');
            if stack.len() > 0 {
                stack.pop();
            }
            proof { delta = v@.subrange(cur0, i0).push('}'); }
            i += 1;
            cursor = i;
        } else if c == ';' {
            push_range(&mut out, v.as_slice(), cursor, i);
            out.push(';');
            proof { delta = v@.subrange(cur0, i0).push(';'); }
            i += 1;
            cursor = i;
        } else {
            i += 1;
        }
        assert(out@ =~= before + delta);
        assert(sel_out(v@, i0, cur0, com0, q0, st0, m, rules) == prepend(
            delta,
            sel_out(v@, i as int, cursor as int, comment, quote, stack@, m, rules),
        ));
        proof {
            lemma_prepend_prepend(before, delta, sel_out(v@, i as int, cursor as int, comment, quote, stack@, m, rules));
        }
    }
    let ghost before = out@;
    if cursor < n {
        push_range(&mut out, v.as_slice(), cursor, n);
    }
    proof {
        if cursor < n {
            assert(out@ =~= before + v@.subrange(cursor as int, n as int));
        } else {
            assert(out@ =~= before + Seq::<char>::empty());
        }
    }
    Ok(out)
}


/// The selector rewriting fails only with the kind of error its rules produce.
pub proof fn lemma_sel_error_kind(
    s: Seq<char>,
    i: int,
    cursor: int,
    comment: bool,
    quote: Option<char>,
    stack: Seq<bool>,
    m: Mapping,
    rules: ClassRules,
)
    ensures
        error_fits(sel_out(s, i, cursor, comment, quote, stack, m, rules), rules),
    decreases s.len() + 1 - i,
{
    if 0 <= i < s.len() {
        let c = s[i];
        if comment {
            if c == '*' && i + 1 < s.len() && s[i + 1] == '/' {
                lemma_sel_error_kind(s, i + 2, cursor, false, quote, stack, m, rules);
            } else {
                lemma_sel_error_kind(s, i + 1, cursor, true, quote, stack, m, rules);
            }
        } else if quote is Some {
            if c == '\\' {
                lemma_sel_error_kind(s, i + 2, cursor, false, quote, stack, m, rules);
            } else if quote == Some(c) {
                lemma_sel_error_kind(s, i + 1, cursor, false, None, stack, m, rules);
            } else {
                lemma_sel_error_kind(s, i + 1, cursor, false, quote, stack, m, rules);
            }
        } else if c == '/' && i + 1 < s.len() && s[i + 1] == '*' {
            lemma_sel_error_kind(s, i + 2, cursor, true, None, stack, m, rules);
        } else if c == '\'' || c == '"' {
            lemma_sel_error_kind(s, i + 1, cursor, false, Some(c), stack, m, rules);
        } else if c == '{' {
            let prelude = s.subrange(cursor, i);
            let trimmed = crate::text::trim_start(prelude);
            lemma_prelude_error_kind(prelude, 0, None, 0, m, rules);
            if trimmed.len() > 0 && trimmed[0] == '@' {
                lemma_sel_error_kind(s, i + 1, i + 1, false, None, stack.push(keyframes_prelude(trimmed)), m, rules);
            } else {
                lemma_sel_error_kind(s, i + 1, i + 1, false, None, stack.push(false), m, rules);
            }
        } else if c == '}' {
            lemma_sel_error_kind(s, i + 1, i + 1, false, None, if stack.len() > 0 { stack.drop_last() } else { stack }, m, rules);
        } else if c == ';' {
            lemma_sel_error_kind(s, i + 1, i + 1, false, None, stack, m, rules);
        } else {
            lemma_sel_error_kind(s, i + 1, cursor, false, None, stack, m, rules);
        }
    }
}

/// `.MAP`, the start of a classmap expression in a stylesheet.
pub open spec fn map_marker() -> Seq<char> {
    seq!['.', 'M', 'A', 'P']
}

/// The end of the classmap expression that starts at `i` in `s`, if one does.  An expression
/// (the pattern `\.MAP(?:__[A-Za-z0-9_-]+)+`) is `.MAP` followed by the longest run of
/// class-name characters, when that run starts with `__` and is at least three long.
pub open spec fn map_match_end(s: Seq<char>, i: int) -> Option<int> {
    if 0 <= i && i + 7 <= s.len() && s.subrange(i, i + 4) == map_marker() && s[i + 4] == '_'
        && s[i + 5] == '_' && class_end(s, i + 4) >= i + 7 {
        Some(class_end(s, i + 4))
    } else {
        None
    }
}

/// The class a classmap expression `s[i..e]` stands for, under `rules`: under the CSS rules
/// the text after its first five characters is looked up like a class name; under the
/// strict rules the text after its first character (`MAP__a__b`) is split at `__` and looked
/// up strictly.  `None` when the expression stays as written.
pub open spec fn map_replacement(s: Seq<char>, i: int, e: int, m: Mapping, rules: ClassRules) -> Result<Option<Seq<char>>, RemapError> {
    match rules {
        ClassRules::Css => {
            let path = s.subrange(i + 5, e);
            match class_lookup(m, path) {
                crate::classmap::LookupOutcome::Found(v) => Ok(Some(v)),
                crate::classmap::LookupOutcome::Missing => Ok(None),
                crate::classmap::LookupOutcome::NotALeaf(k) => Err(
                    RemapError::Path(crate::text::split_by(path, dunder()).take(k as int)),
                ),
            }
        },
        ClassRules::Strict => {
            let pieces = crate::text::split_by(s.subrange(i + 1, e), dunder());
            match crate::classmap::strict_lookup(m, pieces, dunder(), crate::classmap::joined(pieces, dunder())) {
                Ok(x) => Ok(x),
                Err(msg) => Err(RemapError::Message(msg)),
            }
        },
    }
}

/// What replacing the classmap expressions of `s` from position `i` on gives.  Expressions
/// are found left to right without overlap; each becomes `.` and the class it stands for
/// ([`map_replacement`]), or stays as it is when there is none.
pub open spec fn maps_out(s: Seq<char>, i: int, m: Mapping, rules: ClassRules) -> Remapped
    decreases s.len() - i,
{
    if i < 0 || i >= s.len() {
        Ok(Seq::empty())
    } else {
        match map_match_end(s, i) {
            Some(e) => {
                proof {
                    lemma_class_end(s, i + 4);
                }
                match map_replacement(s, i, e, m, rules) {
                    Ok(Some(v)) => prepend(seq!['.'] + v, maps_out(s, e, m, rules)),
                    Ok(None) => prepend(s.subrange(i, e), maps_out(s, e, m, rules)),
                    Err(x) => Err(x),
                }
            },
            None => prepend(seq![s[i]], maps_out(s, i + 1, m, rules)),
        }
    }
}

/// The end of the classmap expression that starts at `i`, if one does.
fn map_match_at(v: &[char], i: usize) -> (r: Option<usize>)
    requires
        i < v@.len(),
    ensures
        match r {
            Some(e) => map_match_end(v@, i as int) == Some(e as int),
            None => map_match_end(v@, i as int) is None,
        },
{
    if v.len() - i >= 7 && v[i] == '.' && v[i + 1] == 'M' && v[i + 2] == 'A' && v[i + 3] == 'P'
        && v[i + 4] == '_' && v[i + 5] == '_' {
        assert(v@.subrange(i as int, i + 4) =~= map_marker());
        let start = i + 4;
        let mut end = start;
        proof {
            lemma_class_end(v@, start as int);
        }
        while end < v.len() && class_char(v[end])
            invariant
                start <= end <= v@.len(),
                class_end(v@, start as int) == class_end(v@, end as int),
            decreases v@.len() - end,
        {
            end += 1;
        }
        assert(class_end(v@, end as int) == end);
        if end - i >= 7 {
            Some(end)
        } else {
            None
        }
    } else {
        proof {
            if i + 7 <= v@.len() && v@.subrange(i as int, i + 4) == map_marker() {
                assert(v@.subrange(i as int, i + 4)[0] == v@[i as int]);
                assert(v@.subrange(i as int, i + 4)[1] == v@[i + 1]);
                assert(v@.subrange(i as int, i + 4)[2] == v@[i + 2]);
                assert(v@.subrange(i as int, i + 4)[3] == v@[i + 3]);
            }
        }
        None
    }
}

/// The classmap expressions fail only with the kind of error their rules produce.
pub proof fn lemma_maps_error_kind(s: Seq<char>, i: int, m: Mapping, rules: ClassRules)
    ensures
        error_fits(maps_out(s, i, m, rules), rules),
    decreases s.len() - i,
{
    if 0 <= i < s.len() {
        match map_match_end(s, i) {
            Some(e) => {
                lemma_class_end(s, i + 4);
                lemma_maps_error_kind(s, e, m, rules);
            },
            None => {
                lemma_maps_error_kind(s, i + 1, m, rules);
            },
        }
    }
}

/// Replaces the classmap expressions of `css` (`.MAP__a__b`) by the classes the classmap
/// gives for them, as [`maps_out`] says.
pub fn remap_map_expressions(css: &str, mapping: &CssMappingRef<'_>) -> (r: Result<String, Error>)
    ensures
        reports(r, maps_out(css@, 0, mapping.mapping(), ClassRules::Css)),
{
    let r = remap_map_expressions_with(css, mapping.inner(), ClassRules::Css);
    proof {
        lemma_maps_error_kind(css@, 0, mapping.mapping(), ClassRules::Css);
    }
    css_result(r)
}

/// Whether `r` reports the class `o` a classmap expression stands for.
pub open spec fn map_lookup_reports(r: Result<Option<String>, RemapFailure>, o: Result<Option<Seq<char>>, RemapError>) -> bool {
    match o {
        Ok(Some(v)) => r matches Ok(Some(c)) && c@ == v,
        Ok(None) => r matches Ok(None),
        Err(RemapError::Path(p)) => r matches Err(RemapFailure::Classmap(Error::Classmap(ResolveError::NotALeaf { path })))
            && crate::classmap::strings_view(path@) == p,
        Err(RemapError::Message(m)) => r matches Err(RemapFailure::Message(e)) && e@ == m,
    }
}

/// The class the classmap expression `v[i..e]` stands for (see [`map_replacement`]).
fn map_lookup(v: &Vec<char>, i: usize, e: usize, mapping: &Mapping, rules: ClassRules) -> (r: Result<Option<String>, RemapFailure>)
    requires
        i + 5 <= e <= v@.len(),
    ensures
        map_lookup_reports(r, map_replacement(v@, i as int, e as int, *mapping, rules)),
{
    match rules {
        ClassRules::Css => {
            let path = crate::text::string_from_chars(&slice_range(v.as_slice(), i + 5, e));
            let view = CssMappingRef::new(mapping);
            match remap_class_name(path.as_str(), &view) {
                Ok(x) => Ok(x),
                Err(err) => Err(RemapFailure::Classmap(err)),
            }
        },
        ClassRules::Strict => {
            let path = crate::text::string_from_chars(&slice_range(v.as_slice(), i + 1, e));
            let pieces = dunder_pieces(path.as_str());
            proof {
                reveal_strlit("__");
                assert("__"@ =~= dunder());
            }
            let whole = crate::classmap::join_prefix(&pieces, pieces.len(), "__");
            assert(crate::classmap::strings_view(pieces@).take(pieces@.len() as int) =~= crate::classmap::strings_view(pieces@));
            assert(seq!['_', '_'] =~= dunder());
            match crate::classmap::strict_lookup_strings(mapping, &pieces, "__", whole.as_str()) {
                Ok(x) => Ok(x),
                Err(msg) => Err(RemapFailure::Message(msg)),
            }
        },
    }
}

/// Replaces the classmap expressions of `css` under `rules` (see [`maps_out`]).
pub fn remap_map_expressions_with(css: &str, mapping: &Mapping, rules: ClassRules) -> (r: Result<String, RemapFailure>)
    ensures
        reports_failure(r, maps_out(css@, 0, *mapping, rules)),
{
    let ghost m = *mapping;
    let v = str_chars(css);
    let n = v.len();
    let mut out = String::new();
    let mut i: usize = 0;
    assert(out@ + maps_out(v@, 0, m, rules)->Ok_0 =~= maps_out(v@, 0, m, rules)->Ok_0);
    while i < n
        invariant
            m == *mapping,
            n == v@.len(),
            v@ == css@,
            i <= n,
            maps_out(v@, 0, m, rules) == prepend(out@, maps_out(v@, i as int, m, rules)),
        decreases n - i,
    {
        let ghost before = out@;
        let ghost i0 = i as int;
        let ghost mut delta: Seq<char> = Seq::empty();
        match map_match_at(v.as_slice(), i) {
            Some(e) => {
                proof {
                    lemma_class_end(v@, i0 + 4);
                }
                match map_lookup(&v, i, e, mapping, rules) {
                    Ok(Some(val)) => {
                        out.push('.');
                        out.push_str(val.as_str());
                        proof { delta = seq!['.'] + val@; }
                    },
                    Ok(None) => {
                        push_range(&mut out, v.as_slice(), i, e);
                        proof { delta = v@.subrange(i0, e as int); }
                    },
                    Err(err) => {
                        return Err(err);
                    },
                }
                i = e;
            },
            None => {
                out.push(v[i]);
                proof { delta = seq![v@[i0]]; }
                i += 1;
            },
        }
        assert(out@ =~= before + delta);
        assert(maps_out(v@, i0, m, rules) == prepend(delta, maps_out(v@, i as int, m, rules)));
        proof {
            lemma_prepend_prepend(before, delta, maps_out(v@, i as int, m, rules));
        }
    }
    assert(out@ + Seq::<char>::empty() =~= out@);
    Ok(out)
}


/// What lightningcss makes of a stylesheet: parsed with the default parser options and
/// printed back unminified for the default targets, the printed code; or the stage that
/// failed (`true` for parsing, `false` for printing) with the text of its error.
pub uninterp spec fn lightningcss_output(css: Seq<char>) -> Result<Seq<char>, (bool, Seq<char>)>;

/// Runs lightningcss on `css`: `lightningcss::stylesheet::StyleSheet::parse` with
/// `ParserOptions::default()`, then `StyleSheet::to_css` with `minify: false` and
/// `Targets::default()`.  The contract claims only that the outcome is the one
/// [`lightningcss_output`] names for `css`: the printed code, or the failing stage with the
/// `Display` text of its error.  What that code is, is not stated.  Neither the crate's
/// source nor its documentation settles that parsing and printing return on every
/// stylesheet; the contract covers the runs that do return, and says nothing of a panic.
#[verifier::external_body]
pub(crate) fn lightningcss_print(css: &str) -> (r: Result<String, (bool, String)>)
    ensures
        lightningcss_output(css@) == match r {
            Ok(code) => Ok(code@),
            Err((parse, msg)) => Err((parse, msg@)),
        },
{
    let sheet = match lightningcss::stylesheet::StyleSheet::parse(css, lightningcss::stylesheet::ParserOptions::default()) {
        Ok(sheet) => sheet,
        Err(err) => return Err((true, err.to_string())),
    };
    let options = lightningcss::stylesheet::PrinterOptions {
        minify: false,
        targets: lightningcss::targets::Targets::default(),
        ..Default::default()
    };
    match sheet.to_css(options) {
        Ok(result) => Ok(result.code),
        Err(err) => Err((false, err.to_string())),
    }
}

/// The message of a failed lightningcss run.
pub open spec fn autoprefix_message(parse: bool, msg: Seq<char>) -> Seq<char> {
    (if parse { "lightningcss parse: "@ } else { "lightningcss serialize: "@ }) + msg
}

/// Whether `r` is the outcome of [`autoprefix`] for a lightningcss run that gave `out`.
pub open spec fn autoprefix_reports(r: Result<String, Error>, out: Result<Seq<char>, (bool, Seq<char>)>) -> bool {
    match out {
        Ok(code) => r matches Ok(s) && s@ == code,
        Err((parse, msg)) => r matches Err(Error::Transpile { path, message }) && path@ == "<css>"@
            && message@ == autoprefix_message(parse, msg),
    }
}

/// Runs `css` through lightningcss, which parses it and prints it back for the default
/// targets.  A failure becomes a transpile error at `<css>`.
pub fn autoprefix(css: &str) -> (r: Result<String, Error>)
    ensures
        autoprefix_reports(r, lightningcss_output(css@)),
{
    match lightningcss_print(css) {
        Ok(code) => Ok(code),
        Err((parse, msg)) => {
            let mut message = String::new();
            if parse {
                message.push_str("lightningcss parse: ");
            } else {
                message.push_str("lightningcss serialize: ");
            }
            message.push_str(msg.as_str());
            assert(message@ =~= autoprefix_message(parse, msg@));
            Err(Error::transpile(crate::text::to_owned_string("<css>"), message))
        },
    }
}

/// What the class-name rewriting makes of a stylesheet printed by lightningcss: first the
/// rule selectors ([`sel_out`]), then the classmap expressions ([`maps_out`]).
pub open spec fn remapped_css(printed: Seq<char>, m: Mapping, rules: ClassRules) -> Remapped {
    match sel_out(printed, 0, 0, false, None, Seq::empty(), m, rules) {
        Ok(t) => maps_out(t, 0, m, rules),
        Err(e) => Err(e),
    }
}

/// Rewrites the class names of a stylesheet that lightningcss has printed: the selectors,
/// then the classmap expressions.
pub fn remap_all(printed: &str, mapping: &CssMappingRef<'_>) -> (r: Result<String, Error>)
    ensures
        reports(r, remapped_css(printed@, mapping.mapping(), ClassRules::Css)),
{
    let selectors = remap_selectors(printed, mapping)?;
    remap_map_expressions(selectors.as_str(), mapping)
}

/// Whether `r` is the outcome of [`process`] for a lightningcss run that gave `out`.
pub open spec fn process_reports(r: Result<String, Error>, out: Result<Seq<char>, (bool, Seq<char>)>, m: Mapping) -> bool {
    match out {
        Ok(code) => reports(r, remapped_css(code, m, ClassRules::Css)),
        Err(_) => autoprefix_reports(r, out),
    }
}

/// The whole CSS pass: lightningcss, then the class-name rewriting.
pub fn process(css: &str, mapping: &CssMappingRef<'_>) -> (r: Result<String, Error>)
    ensures
        process_reports(r, lightningcss_output(css@), mapping.mapping()),
{
    let printed = autoprefix(css)?;
    remap_all(printed.as_str(), mapping)
}

/// The transpiler for stylesheets, holding the classmap their class names are rewritten by.
pub struct CssTranspiler {
    classmap: Mapping,
}

impl CssTranspiler {
    /// The classmap of this transpiler.
    pub closed spec fn spec_classmap(&self) -> Mapping {
        self.classmap
    }

    /// A transpiler that rewrites class names by `classmap`.
    pub fn new(classmap: Mapping) -> (t: Self)
        ensures
            t.spec_classmap() == classmap,
    {
        Self { classmap }
    }

    /// The classmap, read with CSS class names.
    pub fn css_ref(&self) -> (r: CssMappingRef<'_>)
        ensures
            r.mapping() == self.spec_classmap(),
    {
        CssMappingRef::new(&self.classmap)
    }

    /// The kind of source this transpiler is for.
    pub fn kind(&self) -> (k: SourceKind)
        ensures
            k == SourceKind::Css,
    {
        SourceKind::Css
    }

    /// The stylesheet text of `node` as it can be read: its content for a CSS file, `None`
    /// for an SCSS file (which is compiled first), and an error for any other kind.
    pub fn css_source(node: &SourceNode) -> (r: Result<Option<String>, Error>)
        ensures
            node.kind is Css ==> (r matches Ok(Some(s)) && s@ == node.content@),
            node.kind is Scss ==> r matches Ok(None),
            !(node.kind is Css || node.kind is Scss) ==> (r matches Err(Error::Transpile { path, message })
                && path@ == node.path@ && message@ == "CssTranspiler called with non-CSS kind "@ + kind_name(node.kind)),
    {
        match node.kind {
            SourceKind::Css => Ok(Some(node.content.clone())),
            SourceKind::Scss => Ok(None),
            other => {
                let mut message = crate::text::to_owned_string("CssTranspiler called with non-CSS kind ");
                let name = other.name();
                message.push_str(name.as_str());
                Err(Error::transpile(node.path.clone(), message))
            },
        }
    }

    /// Whether `css` asks for Tailwind (holds `@tailwind`), which is expanded before the CSS
    /// pass.
    pub fn needs_tailwind(css: &str) -> (r: bool)
        ensures
            r == crate::text::contains_seq(css@, "@tailwind"@),
    {
        crate::text::str_contains(css, "@tailwind")
    }

    /// Runs the CSS pass ([`process`]) on `css` with this transpiler's classmap.
    pub fn transpile_css(&self, css: &str) -> (r: Result<TranspileOutput, Error>)
        ensures
            process_reports(
                match r {
                    Ok(o) => Ok(o.code),
                    Err(e) => Err(e),
                },
                lightningcss_output(css@),
                self.spec_classmap(),
            ),
            r matches Ok(o) ==> o.source_map is None,
    {
        let code = process(css, &self.css_ref())?;
        Ok(TranspileOutput { code, source_map: None })
    }
}


/// Whether every character of `s` is ASCII and none is `.`: text with no class selector and
/// no classmap expression.
pub open spec fn plain_ascii(s: Seq<char>) -> bool {
    forall|j: int| 0 <= j < s.len() ==> (#[trigger] s[j] as u32) < 0x80 && s[j] != '.'
}

/// Text with no `.` has no classmap expression and passes through unchanged.
pub proof fn law_maps_out_plain(s: Seq<char>, i: int, m: Mapping, rules: ClassRules)
    requires
        plain_ascii(s),
        0 <= i <= s.len(),
    ensures
        maps_out(s, i, m, rules) == Ok::<Seq<char>, RemapError>(s.skip(i)),
    decreases s.len() - i,
{
    if i < s.len() {
        assert(map_match_end(s, i) is None) by {
            assert(s[i] != '.');
            if i + 7 <= s.len() && s.subrange(i, i + 4) == map_marker() {
                assert(s.subrange(i, i + 4)[0] == s[i]);
            }
        }
        law_maps_out_plain(s, i + 1, m, rules);
        assert(seq![s[i]] + s.skip(i + 1) =~= s.skip(i));
    } else {
        assert(s.skip(i) =~= Seq::<char>::empty());
    }
}

/// A selector prelude with no `.` and only ASCII text comes out unchanged.
pub proof fn law_prelude_plain(p: Seq<char>, i: int, quote: Option<char>, depth: nat, m: Mapping, rules: ClassRules)
    requires
        plain_ascii(p),
        0 <= i <= p.len(),
    ensures
        prelude_out(p, i, quote, depth, m, rules) == Ok::<Seq<char>, RemapError>(p.skip(i)),
    decreases p.len() - i,
{
    if i < p.len() {
        let c = p[i];
        assert((c as u32) < 0x80 && c != '.');
        crate::text::lemma_byte_chars_ascii(c);
        match quote {
            Some(q) => {
                if c == '\\' && i + 1 < p.len() {
                    assert((p[i + 1] as u32) < 0x80);
                    crate::text::lemma_byte_chars_ascii(p[i + 1]);
                    law_prelude_plain(p, i + 2, quote, depth, m, rules);
                    assert(seq!['\\'] + seq![p[i + 1]] + p.skip(i + 2) =~= p.skip(i));
                } else if c == '\\' {
                    law_prelude_plain(p, i + 1, quote, depth, m, rules);
                    assert(seq!['\\'] + p.skip(i + 1) =~= p.skip(i));
                } else {
                    law_prelude_plain(p, i + 1, if c == q { None } else { quote }, depth, m, rules);
                    assert(seq![c] + p.skip(i + 1) =~= p.skip(i));
                }
            },
            None => {
                let d2: nat = if c == '[' {
                    depth + 1
                } else if c == ']' {
                    if depth > 0 { (depth - 1) as nat } else { depth }
                } else {
                    depth
                };
                let q2 = if c == '\'' || c == '"' { Some(c) } else { None };
                law_prelude_plain(p, i + 1, q2, d2, m, rules);
                assert(seq![c] + p.skip(i + 1) =~= p.skip(i));
            },
        }
    } else {
        assert(p.skip(i) =~= Seq::<char>::empty());
    }
}

/// A part of plain text is plain.
proof fn lemma_plain_subrange(s: Seq<char>, a: int, b: int)
    requires
        plain_ascii(s),
        0 <= a <= b <= s.len(),
    ensures
        plain_ascii(s.subrange(a, b)),
{
    assert forall|j: int| 0 <= j < s.subrange(a, b).len() implies (#[trigger] s.subrange(a, b)[j] as u32) < 0x80
        && s.subrange(a, b)[j] != '.' by {
        assert(s.subrange(a, b)[j] == s[a + j]);
    }
}

/// A stylesheet with no `.` and only ASCII text passes the selector rewriting unchanged.
pub proof fn law_selectors_plain(
    s: Seq<char>,
    i: int,
    cursor: int,
    comment: bool,
    quote: Option<char>,
    stack: Seq<bool>,
    m: Mapping,
    rules: ClassRules,
)
    requires
        plain_ascii(s),
        0 <= cursor <= i,
        cursor <= s.len(),
    ensures
        sel_out(s, i, cursor, comment, quote, stack, m, rules) == Ok::<Seq<char>, RemapError>(
            s.subrange(cursor, s.len() as int),
        ),
    decreases s.len() + 1 - i,
{
    if i < s.len() {
        let c = s[i];
        if comment {
            if c == '*' && i + 1 < s.len() && s[i + 1] == '/' {
                law_selectors_plain(s, i + 2, cursor, false, quote, stack, m, rules);
            } else {
                law_selectors_plain(s, i + 1, cursor, true, quote, stack, m, rules);
            }
        } else if quote is Some {
            if c == '\\' {
                law_selectors_plain(s, i + 2, cursor, false, quote, stack, m, rules);
            } else if quote == Some(c) {
                law_selectors_plain(s, i + 1, cursor, false, None, stack, m, rules);
            } else {
                law_selectors_plain(s, i + 1, cursor, false, quote, stack, m, rules);
            }
        } else if c == '/' && i + 1 < s.len() && s[i + 1] == '*' {
            law_selectors_plain(s, i + 2, cursor, true, None, stack, m, rules);
        } else if c == '\'' || c == '"' {
            law_selectors_plain(s, i + 1, cursor, false, Some(c), stack, m, rules);
        } else if c == '{' || c == '}' || c == ';' {
            let prelude = s.subrange(cursor, i);
            lemma_plain_subrange(s, cursor, i);
            law_prelude_plain(prelude, 0, None, 0, m, rules);
            assert(prelude.skip(0) =~= prelude);
            let trimmed = crate::text::trim_start(prelude);
            let st2 = if c == '{' {
                if trimmed.len() > 0 && trimmed[0] == '@' {
                    stack.push(keyframes_prelude(trimmed))
                } else {
                    stack.push(false)
                }
            } else if c == '}' {
                if stack.len() > 0 { stack.drop_last() } else { stack }
            } else {
                stack
            };
            law_selectors_plain(s, i + 1, i + 1, false, None, st2, m, rules);
            assert(prelude.push(c) + s.subrange(i + 1, s.len() as int) =~= s.subrange(cursor, s.len() as int));
        } else {
            law_selectors_plain(s, i + 1, cursor, false, None, stack, m, rules);
        }
    } else if cursor == s.len() {
        assert(s.subrange(cursor, s.len() as int) =~= Seq::<char>::empty());
    }
}

/// A stylesheet with no `.` and only ASCII text comes out of the class-name rewriting as it
/// went in.
pub proof fn law_plain_css_unchanged(s: Seq<char>, m: Mapping, rules: ClassRules)
    requires
        plain_ascii(s),
    ensures
        remapped_css(s, m, rules) == Ok::<Seq<char>, RemapError>(s),
{
    law_selectors_plain(s, 0, 0, false, None, Seq::empty(), m, rules);
    assert(s.subrange(0, s.len() as int) =~= s);
    law_maps_out_plain(s, 0, m, rules);
    assert(s.skip(0) =~= s);
}

/// The result of rewriting `a` followed by the result of rewriting `b`: the two texts
/// joined, or the first error.
pub open spec fn join_remapped(a: Remapped, b: Remapped) -> Remapped {
    match a {
        Ok(x) => prepend(x, b),
        Err(e) => Err(e),
    }
}

/// Whether `t2` can follow `t1` without a classmap expression running across the seam: it
/// is empty or starts with a character that is neither `.` nor a class-name character.
pub open spec fn clean_seam(t2: Seq<char>) -> bool {
    t2.len() > 0 ==> !is_class_char(t2[0]) && t2[0] != '.'
}

proof fn lemma_join_prepend(a: Seq<char>, r: Remapped, x: Remapped)
    ensures
        join_remapped(prepend(a, r), x) == prepend(a, join_remapped(r, x)),
{
    match r {
        Ok(t) => {
            lemma_prepend_prepend(a, t, x);
        },
        Err(_) => {},
    }
}

proof fn lemma_class_end_shift(t: Seq<char>, s2: Seq<char>, k: int)
    requires
        0 <= k <= s2.len(),
    ensures
        class_end(t + s2, t.len() + k) == t.len() + class_end(s2, k),
    decreases s2.len() - k,
{
    if k < s2.len() {
        assert((t + s2)[t.len() + k] == s2[k]);
        lemma_class_end_shift(t, s2, k + 1);
    }
}

proof fn lemma_class_end_prefix(t1: Seq<char>, t2: Seq<char>, j: int)
    requires
        0 <= j <= t1.len(),
        clean_seam(t2),
    ensures
        class_end(t1 + t2, j) == class_end(t1, j),
    decreases t1.len() - j,
{
    if j < t1.len() {
        assert((t1 + t2)[j] == t1[j]);
        lemma_class_end_prefix(t1, t2, j + 1);
    } else if t2.len() > 0 {
        assert((t1 + t2)[j] == t2[0]);
    }
}

proof fn lemma_map_match_shift(t: Seq<char>, s2: Seq<char>, j: int)
    requires
        0 <= j,
    ensures
        map_match_end(t + s2, t.len() + j) == match map_match_end(s2, j) {
            Some(e) => Some(t.len() + e),
            None => None::<int>,
        },
{
    let s = t + s2;
    let n = t.len() as int;
    if j + 7 <= s2.len() {
        assert(s.subrange(n + j, n + j + 4) =~= s2.subrange(j, j + 4));
        assert(s[n + j + 4] == s2[j + 4]);
        assert(s[n + j + 5] == s2[j + 5]);
        lemma_class_end_shift(t, s2, j + 4);
    }
}

proof fn lemma_maps_shift(t: Seq<char>, s2: Seq<char>, j: int, m: Mapping, rules: ClassRules)
    requires
        0 <= j,
    ensures
        maps_out(t + s2, t.len() + j, m, rules) == maps_out(s2, j, m, rules),
    decreases s2.len() - j,
{
    let s = t + s2;
    let n = t.len() as int;
    if j < s2.len() {
        lemma_map_match_shift(t, s2, j);
        match map_match_end(s2, j) {
            Some(e) => {
                lemma_class_end(s2, j + 4);
                assert(s.subrange(n + j + 5, n + e) =~= s2.subrange(j + 5, e));
                assert(s.subrange(n + j + 1, n + e) =~= s2.subrange(j + 1, e));
                assert(s.subrange(n + j, n + e) =~= s2.subrange(j, e));
                assert(map_replacement(s, n + j, n + e, m, rules) == map_replacement(s2, j, e, m, rules));
                lemma_maps_shift(t, s2, e, m, rules);
            },
            None => {
                assert(s[n + j] == s2[j]);
                lemma_maps_shift(t, s2, j + 1, m, rules);
            },
        }
    }
}

proof fn lemma_map_match_prefix(t1: Seq<char>, t2: Seq<char>, i: int)
    requires
        0 <= i < t1.len(),
        clean_seam(t2),
    ensures
        map_match_end(t1 + t2, i) == map_match_end(t1, i),
        map_match_end(t1, i) matches Some(e) ==> e <= t1.len(),
{
    let s = t1 + t2;
    let n = t1.len() as int;
    if map_match_end(s, i) is Some {
        let mk = s.subrange(i, i + 4);
        assert(mk[0] == s[i] && mk[1] == s[i + 1] && mk[2] == s[i + 2] && mk[3] == s[i + 3]);
        if i + 6 > n {
            assert(s[n] == t2[0]);
        }
        assert(i + 6 <= n);
        lemma_class_end_prefix(t1, t2, i + 4);
        lemma_class_end(t1, i + 4);
        assert(s.subrange(i, i + 4) =~= t1.subrange(i, i + 4));
    }
    if map_match_end(t1, i) is Some {
        lemma_class_end_prefix(t1, t2, i + 4);
        lemma_class_end(t1, i + 4);
        assert(s.subrange(i, i + 4) =~= t1.subrange(i, i + 4));
    }
}

proof fn lemma_maps_prefix(t1: Seq<char>, t2: Seq<char>, i: int, m: Mapping, rules: ClassRules)
    requires
        0 <= i <= t1.len(),
        clean_seam(t2),
    ensures
        maps_out(t1 + t2, i, m, rules) == join_remapped(maps_out(t1, i, m, rules), maps_out(t1 + t2, t1.len() as int, m, rules)),
    decreases t1.len() - i,
{
    let s = t1 + t2;
    let n = t1.len() as int;
    let x = maps_out(s, n, m, rules);
    if i == n {
        match x {
            Ok(v) => {
                assert(Seq::<char>::empty() + v =~= v);
            },
            Err(_) => {},
        }
    } else {
        lemma_map_match_prefix(t1, t2, i);
        match map_match_end(t1, i) {
            Some(e) => {
                lemma_class_end(t1, i + 4);
                assert(s.subrange(i + 5, e) =~= t1.subrange(i + 5, e));
                assert(s.subrange(i + 1, e) =~= t1.subrange(i + 1, e));
                assert(s.subrange(i, e) =~= t1.subrange(i, e));
                assert(map_replacement(s, i, e, m, rules) == map_replacement(t1, i, e, m, rules));
                lemma_maps_prefix(t1, t2, e, m, rules);
                match map_replacement(t1, i, e, m, rules) {
                    Ok(Some(v)) => {
                        lemma_join_prepend(seq!['.'] + v, maps_out(t1, e, m, rules), x);
                    },
                    Ok(None) => {
                        lemma_join_prepend(t1.subrange(i, e), maps_out(t1, e, m, rules), x);
                    },
                    Err(_) => {},
                }
            },
            None => {
                assert(s[i] == t1[i]);
                lemma_maps_prefix(t1, t2, i + 1, m, rules);
                lemma_join_prepend(seq![t1[i]], maps_out(t1, i + 1, m, rules), x);
            },
        }
    }
}

/// Every classmap expression of a stylesheet is rewritten, wherever it stands: rewriting two
/// texts joined at a seam that no expression runs across gives the rewriting of the first
/// followed by the rewriting of the second (or the first error).
pub proof fn law_every_map_expression_rewritten(t1: Seq<char>, t2: Seq<char>, m: Mapping, rules: ClassRules)
    requires
        clean_seam(t2),
    ensures
        maps_out(t1 + t2, 0, m, rules) == join_remapped(maps_out(t1, 0, m, rules), maps_out(t2, 0, m, rules)),
{
    lemma_maps_prefix(t1, t2, 0, m, rules);
    lemma_maps_shift(t1, t2, 0, m, rules);
}

proof fn lemma_sel_shift(
    t: Seq<char>,
    s2: Seq<char>,
    j: int,
    c: int,
    comment: bool,
    quote: Option<char>,
    stack: Seq<bool>,
    m: Mapping,
    rules: ClassRules,
)
    requires
        0 <= c <= j,
    ensures
        sel_out(t + s2, t.len() + j, t.len() + c, comment, quote, stack, m, rules) == sel_out(
            s2,
            j,
            c,
            comment,
            quote,
            stack,
            m,
            rules,
        ),
    decreases s2.len() + 1 - j,
{
    let s = t + s2;
    let n = t.len() as int;
    if j >= s2.len() {
        if c < s2.len() {
            assert(s.subrange(n + c, s.len() as int) =~= s2.subrange(c, s2.len() as int));
        }
    } else {
        let ch = s2[j];
        assert(s[n + j] == ch);
        if j + 1 < s2.len() {
            assert(s[n + j + 1] == s2[j + 1]);
        }
        assert(s.subrange(n + c, n + j) =~= s2.subrange(c, j));
        if comment {
            if ch == '*' && j + 1 < s2.len() && s2[j + 1] == '/' {
                lemma_sel_shift(t, s2, j + 2, c, false, quote, stack, m, rules);
            } else {
                lemma_sel_shift(t, s2, j + 1, c, true, quote, stack, m, rules);
            }
        } else if quote is Some {
            if ch == '\\' {
                lemma_sel_shift(t, s2, j + 2, c, false, quote, stack, m, rules);
            } else if quote == Some(ch) {
                lemma_sel_shift(t, s2, j + 1, c, false, None, stack, m, rules);
            } else {
                lemma_sel_shift(t, s2, j + 1, c, false, quote, stack, m, rules);
            }
        } else if ch == '/' && j + 1 < s2.len() && s2[j + 1] == '*' {
            lemma_sel_shift(t, s2, j + 2, c, true, None, stack, m, rules);
        } else if ch == '\'' || ch == '"' {
            lemma_sel_shift(t, s2, j + 1, c, false, Some(ch), stack, m, rules);
        } else if ch == '{' {
            let trimmed = crate::text::trim_start(s2.subrange(c, j));
            lemma_sel_shift(t, s2, j + 1, j + 1, false, None, stack.push(keyframes_prelude(trimmed)), m, rules);
            lemma_sel_shift(t, s2, j + 1, j + 1, false, None, stack.push(false), m, rules);
        } else if ch == '}' {
            lemma_sel_shift(t, s2, j + 1, j + 1, false, None, if stack.len() > 0 { stack.drop_last() } else { stack }, m, rules);
        } else if ch == ';' {
            lemma_sel_shift(t, s2, j + 1, j + 1, false, None, stack, m, rules);
        } else {
            lemma_sel_shift(t, s2, j + 1, c, false, None, stack, m, rules);
        }
    }
}

/// Whether `c` leaves the selector scan where it is: it opens or closes no block, ends no
/// statement, and starts no comment or string.
pub open spec fn plain_css_char(c: char) -> bool {
    c != '{' && c != '}' && c != ';' && c != '/' && c != '\'' && c != '"'
}

proof fn lemma_sel_plain_run(
    s: Seq<char>,
    i: int,
    k: int,
    cursor: int,
    stack: Seq<bool>,
    m: Mapping,
    rules: ClassRules,
)
    requires
        0 <= i <= k <= s.len(),
        forall|q: int| i <= q < k ==> plain_css_char(#[trigger] s[q]),
    ensures
        sel_out(s, i, cursor, false, None, stack, m, rules) == sel_out(s, k, cursor, false, None, stack, m, rules),
    decreases k - i,
{
    if i < k {
        assert(plain_css_char(s[i]));
        lemma_sel_plain_run(s, i + 1, k, cursor, stack, m, rules);
    }
}

/// Closing a block restores the context before it opened: after an at-rule block (such as
/// `@keyframes spin { ... }`) the rest of a stylesheet is rewritten exactly as it would be
/// at the top level on its own.  In particular, rule selectors after a closed keyframes
/// block are remapped again.
pub proof fn law_closed_at_rule_block_restores_top_level(
    p: Seq<char>,
    b: Seq<char>,
    rest: Seq<char>,
    m: Mapping,
    rules: ClassRules,
)
    requires
        forall|q: int| 0 <= q < p.len() ==> plain_css_char(#[trigger] p[q]),
        forall|q: int| 0 <= q < b.len() ==> plain_css_char(#[trigger] b[q]),
        crate::text::trim_start(p).len() > 0 && crate::text::trim_start(p)[0] == '@',
    ensures
        sel_out(p + seq!['{'] + b + seq!['}'] + rest, 0, 0, false, None, Seq::empty(), m, rules) == prepend(
            p + seq!['{'] + b + seq!['}'],
            sel_out(rest, 0, 0, false, None, Seq::empty(), m, rules),
        ),
{
    let block = p + seq!['{'] + b + seq!['}'];
    let s = block + rest;
    let l = p.len() as int;
    let mid = l + 1 + b.len();
    let empty = Seq::<bool>::empty();
    assert forall|q: int| 0 <= q < l implies plain_css_char(#[trigger] s[q]) by {
        assert(s[q] == p[q]);
    }
    lemma_sel_plain_run(s, 0, l, 0, empty, m, rules);
    assert(s[l] == '{');
    assert(s.subrange(0, l) =~= p);
    let kf = keyframes_prelude(crate::text::trim_start(p));
    let inner = empty.push(kf);
    assert forall|q: int| l + 1 <= q < mid implies plain_css_char(#[trigger] s[q]) by {
        assert(s[q] == b[q - l - 1]);
    }
    lemma_sel_plain_run(s, l + 1, mid, l + 1, inner, m, rules);
    assert(s[mid] == '}');
    assert(s.subrange(l + 1, mid) =~= b);
    assert(inner.drop_last() =~= empty);
    lemma_sel_shift(block, rest, 0, 0, false, None, empty, m, rules);
    assert(block.len() == mid + 1);
    lemma_prepend_prepend(p.push('{'), b.push('}'), sel_out(rest, 0, 0, false, None, empty, m, rules));
    assert(p.push('{') + b.push('}') =~= block);
}

/// Whether `c` may stand in the body of a block without opening or closing one: a plain
/// character or `;`.
pub open spec fn body_css_char(c: char) -> bool {
    plain_css_char(c) || c == ';'
}

proof fn lemma_sel_body_run(
    s: Seq<char>,
    i: int,
    k: int,
    cursor: int,
    stack: Seq<bool>,
    m: Mapping,
    rules: ClassRules,
) -> (c2: int)
    requires
        0 <= cursor <= i <= k <= s.len(),
        forall|q: int| i <= q < k ==> body_css_char(#[trigger] s[q]),
    ensures
        cursor <= c2 <= k,
        sel_out(s, i, cursor, false, None, stack, m, rules) == prepend(
            s.subrange(cursor, c2),
            sel_out(s, k, c2, false, None, stack, m, rules),
        ),
    decreases k - i,
{
    if i == k {
        let x = sel_out(s, k, cursor, false, None, stack, m, rules);
        match x {
            Ok(v) => {
                assert(s.subrange(cursor, cursor) + v =~= v);
            },
            Err(_) => {},
        }
        cursor
    } else {
        assert(body_css_char(s[i]));
        if s[i] == ';' {
            let c2 = lemma_sel_body_run(s, i + 1, k, i + 1, stack, m, rules);
            lemma_prepend_prepend(s.subrange(cursor, i).push(';'), s.subrange(i + 1, c2), sel_out(s, k, c2, false, None, stack, m, rules));
            assert(s.subrange(cursor, i).push(';') + s.subrange(i + 1, c2) =~= s.subrange(cursor, c2));
            c2
        } else {
            lemma_sel_body_run(s, i + 1, k, cursor, stack, m, rules)
        }
    }
}

/// Closing a keyframes block restores the top level, also when the block holds a nested
/// block and declarations: for `p { b1 { b2 } b3 }` with a keyframes prelude `p`, the block
/// is copied as it is and the rest of the stylesheet is rewritten exactly as it would be on
/// its own, so rule selectors after it are remapped again.
#[verifier::spinoff_prover]
#[verifier::rlimit(60)]
pub proof fn law_closed_keyframes_block_restores_top_level(
    p: Seq<char>,
    b1: Seq<char>,
    b2: Seq<char>,
    b3: Seq<char>,
    rest: Seq<char>,
    m: Mapping,
    rules: ClassRules,
)
    requires
        forall|q: int| 0 <= q < p.len() ==> plain_css_char(#[trigger] p[q]),
        forall|q: int| 0 <= q < b1.len() ==> body_css_char(#[trigger] b1[q]),
        forall|q: int| 0 <= q < b2.len() ==> body_css_char(#[trigger] b2[q]),
        forall|q: int| 0 <= q < b3.len() ==> body_css_char(#[trigger] b3[q]),
        crate::text::trim_start(p).len() > 0 && crate::text::trim_start(p)[0] == '@',
        keyframes_prelude(crate::text::trim_start(p)),
    ensures
        sel_out(p + seq!['{'] + b1 + seq!['{'] + b2 + seq!['}'] + b3 + seq!['}'] + rest, 0, 0, false, None, Seq::empty(), m, rules)
            == prepend(
            p + seq!['{'] + b1 + seq!['{'] + b2 + seq!['}'] + b3 + seq!['}'],
            sel_out(rest, 0, 0, false, None, Seq::empty(), m, rules),
        ),
{
    let block = p + seq!['{'] + b1 + seq!['{'] + b2 + seq!['}'] + b3 + seq!['}'];
    let s = block + rest;
    let empty = Seq::<bool>::empty();
    let l = p.len() as int;
    let o1 = l + 1;
    let q1 = o1 + b1.len();
    let o2 = q1 + 1;
    let q2 = o2 + b2.len();
    let o3 = q2 + 1;
    let q3 = o3 + b3.len();
    assert(block.len() == q3 + 1);
    assert forall|q: int| 0 <= q < l implies plain_css_char(#[trigger] s[q]) by {
        assert(s[q] == p[q]);
    }
    assert forall|q: int| o1 <= q < q1 implies body_css_char(#[trigger] s[q]) by {
        assert(s[q] == b1[q - o1]);
    }
    assert forall|q: int| o2 <= q < q2 implies body_css_char(#[trigger] s[q]) by {
        assert(s[q] == b2[q - o2]);
    }
    assert forall|q: int| o3 <= q < q3 implies body_css_char(#[trigger] s[q]) by {
        assert(s[q] == b3[q - o3]);
    }
    assert(s[l] == '{' && s[q1] == '{' && s[q2] == '}' && s[q3] == '}');
    let outer = empty.push(true);
    let x_end = sel_out(rest, 0, 0, false, None, empty, m, rules);
    lemma_sel_plain_run(s, 0, l, 0, empty, m, rules);
    let a1 = p.push('{');
    assert(sel_out(s, l, 0, false, None, empty, m, rules) == prepend(a1, sel_out(s, o1, o1, false, None, outer, m, rules))) by {
        assert(s.subrange(0, l) =~= p);
    }
    let c1 = lemma_sel_body_run(s, o1, q1, o1, outer, m, rules);
    let a2 = s.subrange(o1, c1);
    let pre = s.subrange(c1, q1);
    let tp = crate::text::trim_start(pre);
    let nested = if tp.len() > 0 && tp[0] == '@' { outer.push(keyframes_prelude(tp)) } else { outer.push(false) };
    let a3 = pre.push('{');
    assert(sel_out(s, q1, c1, false, None, outer, m, rules) == prepend(a3, sel_out(s, o2, o2, false, None, nested, m, rules))) by {
        assert(outer[0] == true);
        assert(outer.contains(true));
    }
    let c2 = lemma_sel_body_run(s, o2, q2, o2, nested, m, rules);
    let a4 = s.subrange(o2, c2);
    let a5 = s.subrange(c2, q2).push('}');
    assert(sel_out(s, q2, c2, false, None, nested, m, rules) == prepend(a5, sel_out(s, o3, o3, false, None, outer, m, rules))) by {
        assert(nested.drop_last() =~= outer);
    }
    let c3 = lemma_sel_body_run(s, o3, q3, o3, outer, m, rules);
    let a6 = s.subrange(o3, c3);
    let a7 = s.subrange(c3, q3).push('}');
    assert(sel_out(s, q3, c3, false, None, outer, m, rules) == prepend(a7, sel_out(s, q3 + 1, q3 + 1, false, None, empty, m, rules))) by {
        assert(outer.drop_last() =~= empty);
    }
    assert(sel_out(s, q3 + 1, q3 + 1, false, None, empty, m, rules) == x_end) by {
        lemma_sel_shift(block, rest, 0, 0, false, None, empty, m, rules);
    }
    lemma_prepend_prepend(a6, a7, x_end);
    lemma_prepend_prepend(a5, a6 + a7, x_end);
    lemma_prepend_prepend(a4, a5 + (a6 + a7), x_end);
    lemma_prepend_prepend(a3, a4 + (a5 + (a6 + a7)), x_end);
    lemma_prepend_prepend(a2, a3 + (a4 + (a5 + (a6 + a7))), x_end);
    lemma_prepend_prepend(a1, a2 + (a3 + (a4 + (a5 + (a6 + a7)))), x_end);
    assert(a1 + (a2 + (a3 + (a4 + (a5 + (a6 + a7))))) =~= block);
}

} // verus!
