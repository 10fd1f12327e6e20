use vstd::prelude::*;
use vstd::string::StringSliceAdditionalSpecFns;

use crate::build::graph::{kind_name, SourceKind, SourceNode};
use crate::classmap::{LookupOutcome, Mapping};
use crate::error::Error;
use crate::text::{chars_start_with, push_range, str_chars, str_equal, str_starts_with, to_owned_string};
use crate::transpile::TranspileContext;

verus! {

/// Whether an import specifier points at a remote module (`http://` or `https://`).
pub open spec fn remote(s: Seq<char>) -> bool {
    crate::text::starts_with(s, "http://"@) || crate::text::starts_with(s, "https://"@)
}

/// Whether an import specifier points at a remote module.
pub fn is_remote(specifier: &str) -> (r: bool)
    ensures
        r == remote(specifier@),
{
    str_starts_with(specifier, "http://") || str_starts_with(specifier, "https://")
}

/// The module a `/modules/<name>/...` specifier names: the text after `/modules/` up to the
/// next `/`.
pub open spec fn module_name_of(s: Seq<char>) -> Option<Seq<char>> {
    if crate::text::starts_with(s, "/modules/"@) {
        Some(crate::text::split_by(s.skip("/modules/"@.len() as int), seq!['/'])[0])
    } else {
        None
    }
}

/// The module a `/modules/<name>/...` specifier names, if it is one.
pub fn extract_module_name(specifier: &str) -> (r: Option<String>)
    ensures
        match module_name_of(specifier@) {
            Some(n) => r matches Some(s) && s@ == n,
            None => r is None,
        },
{
    let v = str_chars(specifier);
    let prefix = str_chars("/modules/");
    if !chars_start_with(v.as_slice(), prefix.as_slice()) {
        return None;
    }
    let rest = crate::transpile::css::slice_range(v.as_slice(), prefix.len(), v.len());
    assert(rest@ == specifier@.skip("/modules/"@.len() as int));
    let sep: Vec<char> = vec!['/'];
    assert(sep@ =~= seq!['/']);
    let pieces = crate::text::split_chars(rest.as_slice(), sep.as_slice());
    proof {
        crate::text::lemma_split_by_nonempty(rest@, seq!['/']);
    }
    Some(crate::text::string_from_chars(pieces[0].as_slice()))
}

/// Whether `t` may follow a rewritten extension: nothing, or `?` and a query without a line
/// break (the part `(\?.*)?$` of the extension patterns).
pub open spec fn query_tail(t: Seq<char>) -> bool {
    t.len() == 0 || (t[0] == '?' && !t.contains('\n'))
}

/// The end of the extension when the pattern `\.ext(\?.*)?$` matches at `p` (with an optional
/// `x` after `ext` when `opt_x` is set, taken when it leads to a match).
pub open spec fn ext_match_at(s: Seq<char>, p: int, ext: Seq<char>, opt_x: bool) -> Option<int> {
    let q0 = p + 1 + ext.len();
    if 0 <= p && q0 <= s.len() && s[p] == '.' && s.subrange(p + 1, q0) == ext {
        let q = if opt_x && q0 < s.len() && s[q0] == 'x' {
            q0 + 1
        } else {
            q0
        };
        if query_tail(s.skip(q)) {
            Some(q)
        } else {
            None
        }
    } else {
        None
    }
}

/// The leftmost match of an extension pattern at or after `p`: where it starts and where its
/// extension ends.
pub open spec fn first_ext_match(s: Seq<char>, p: int, ext: Seq<char>, opt_x: bool) -> Option<(int, int)>
    decreases s.len() - p,
{
    if p < 0 || p >= s.len() {
        None
    } else {
        match ext_match_at(s, p, ext, opt_x) {
            Some(q) => Some((p, q)),
            None => first_ext_match(s, p + 1, ext, opt_x),
        }
    }
}

/// One extension rule applied to `s`: the match (there is at most one, as every match runs
/// to the end) has its extension replaced by `.js`, its query kept.
pub open spec fn apply_ext_rule(s: Seq<char>, ext: Seq<char>, opt_x: bool) -> Seq<char> {
    match first_ext_match(s, 0, ext, opt_x) {
        Some((p, q)) => s.take(p) + seq!['.', 'j', 's'] + s.skip(q),
        None => s,
    }
}

/// The four extension rules in order: `.ts`/`.tsx`, `.mjs`, `.mts`, `.jsx`.
pub open spec fn rewritten_extension(s: Seq<char>) -> Seq<char> {
    let a = apply_ext_rule(s, seq!['t', 's'], true);
    let b = apply_ext_rule(a, seq!['m', 'j', 's'], false);
    let c = apply_ext_rule(b, seq!['m', 't', 's'], false);
    apply_ext_rule(c, seq!['j', 's', 'x'], false)
}

/// What the extension rewriting makes of a specifier: nothing for a remote one or one the
/// rules leave unchanged, else the rewritten specifier.
pub open spec fn extension_rewrite(s: Seq<char>) -> Option<Seq<char>> {
    if remote(s) {
        None
    } else {
        let r = rewritten_extension(s);
        if r == s {
            None
        } else {
            Some(r)
        }
    }
}

/// The time a specifier is stamped with in a development build: the build's own time for a
/// relative specifier, the recorded time of the dependency a `/modules/<name>/` specifier
/// names when there is one, and the build's time otherwise.
pub open spec fn resolved_timestamp(s: Seq<char>, now: u128, deps: Seq<(String, u128)>) -> u128 {
    if crate::text::starts_with(s, "./"@) || crate::text::starts_with(s, "../"@) {
        now
    } else {
        match module_name_of(s) {
            Some(n) => match crate::transpile::find_timestamp(deps, n) {
                Some(t) => t,
                None => now,
            },
            None => now,
        }
    }
}

/// What an import specifier is rewritten to, if anything: remote specifiers stay; the JSX
/// runtime is pointed at the bundled one; in a development build a local specifier gets a
/// `?t=` timestamp; otherwise the extension rules apply.
pub open spec fn specifier_rewrite(s: Seq<char>, dev: bool, now: u128, deps: Seq<(String, u128)>) -> Option<Seq<char>> {
    if remote(s) {
        None
    } else if s == "/modules/stdlib/src/expose/jsx-runtime"@ || s == "react/jsx-runtime"@ {
        Some("/modules/stdlib/src/expose/jsx-runtime.js"@)
    } else if dev && (crate::text::starts_with(s, "./"@) || crate::text::starts_with(s, "../"@)
        || crate::text::starts_with(s, "/"@)) {
        Some(s + "?t="@ + crate::text::decimal(resolved_timestamp(s, now, deps) as nat))
    } else {
        extension_rewrite(s)
    }
}

/// The end of the extension when an extension pattern matches at `p`.
#[verifier::loop_isolation(false)]
fn ext_match(v: &[char], p: usize, ext: &[char], opt_x: bool) -> (r: Option<usize>)
    requires
        p < v@.len(),
    ensures
        match r {
            Some(q) => ext_match_at(v@, p as int, ext@, opt_x) == Some(q as int),
            None => ext_match_at(v@, p as int, ext@, opt_x) is None,
        },
{
    if v[p] != '.' || ext.len() > v.len() - p - 1 {
        return None;
    }
    if !crate::text::occurs_at(v, p + 1, ext) {
        return None;
    }
    let q0 = p + 1 + ext.len();
    let q = if opt_x && q0 < v.len() && v[q0] == 'x' {
        q0 + 1
    } else {
        q0
    };
    if q == v.len() {
        assert(v@.skip(q as int).len() == 0);
        return Some(q);
    }
    if v[q] != '?' {
        assert(v@.skip(q as int)[0] == v@[q as int]);
        return None;
    }
    let mut k = q + 1;
    while k < v.len()
        invariant
            q < k <= v@.len(),
            forall|j: int| q < j < k ==> v@[j] != '\n',
        decreases v@.len() - k,
    {
        if v[k] == '\n' {
            assert(v@.skip(q as int)[k - q] == '\n');
            assert(v@.skip(q as int).contains('\n'));
            return None;
        }
        k += 1;
    }
    proof {
        let t = v@.skip(q as int);
        assert(t[0] == '?');
        if t.contains('\n') {
            let j = choose|j: int| 0 <= j < t.len() && t[j] == '\n';
            assert(t[j] == v@[q + j]);
        }
    }
    Some(q)
}

/// One extension rule applied to `v`.
fn ext_rule(v: &Vec<char>, ext: &[char], opt_x: bool) -> (r: Vec<char>)
    ensures
        r@ == apply_ext_rule(v@, ext@, opt_x),
{
    let mut p: usize = 0;
    while p < v.len()
        invariant
            p <= v@.len(),
            first_ext_match(v@, 0, ext@, opt_x) == first_ext_match(v@, p as int, ext@, opt_x),
        decreases v@.len() - p,
    {
        match ext_match(v.as_slice(), p, ext, opt_x) {
            Some(q) => {
                let mut r: Vec<char> = Vec::new();
                let mut k: usize = 0;
                while k < p
                    invariant
                        k <= p < v@.len(),
                        r@ == v@.take(k as int),
                    decreases p - k,
                {
                    r.push(v[k]);
                    assert(v@.take(k + 1) =~= v@.take(k as int).push(v@[k as int]));
                    k += 1;
                }
                r.push('.');
                r.push('j');
                r.push('s');
                let mut k = q;
                proof {
                    assert(q <= v@.len());
                }
                let ghost head = r@;
                while k < v.len()
                    invariant
                        q <= k <= v@.len(),
                        r@ == head + v@.subrange(q as int, k as int),
                    decreases v@.len() - k,
                {
                    r.push(v[k]);
                    assert(v@.subrange(q as int, k + 1) =~= v@.subrange(q as int, k as int).push(v@[k as int]));
                    k += 1;
                }
                assert(head =~= v@.take(p as int) + seq!['.', 'j', 's']);
                assert(v@.subrange(q as int, v@.len() as int) =~= v@.skip(q as int));
                return r;
            },
            None => {
                p += 1;
            },
        }
    }
    let mut r: Vec<char> = Vec::new();
    let mut k: usize = 0;
    while k < v.len()
        invariant
            k <= v@.len(),
            r@ == v@.take(k as int),
        decreases v@.len() - k,
    {
        r.push(v[k]);
        assert(v@.take(k + 1) =~= v@.take(k as int).push(v@[k as int]));
        k += 1;
    }
    assert(v@.take(v@.len() as int) =~= v@);
    r
}

/// The specifier with its `.ts`, `.tsx`, `.mjs`, `.mts` or `.jsx` extension turned into
/// `.js` (a query after it is kept), or `None` when it is remote or nothing changes.
pub fn rewrite_extension_of(specifier: &str) -> (r: Option<String>)
    ensures
        match extension_rewrite(specifier@) {
            Some(t) => r matches Some(s) && s@ == t,
            None => r is None,
        },
{
    if is_remote(specifier) {
        return None;
    }
    let v = str_chars(specifier);
    let ts: Vec<char> = vec!['t', 's'];
    let mjs: Vec<char> = vec!['m', 'j', 's'];
    let mts: Vec<char> = vec!['m', 't', 's'];
    let jsx: Vec<char> = vec!['j', 's', 'x'];
    assert(ts@ =~= seq!['t', 's']);
    assert(mjs@ =~= seq!['m', 'j', 's']);
    assert(mts@ =~= seq!['m', 't', 's']);
    assert(jsx@ =~= seq!['j', 's', 'x']);
    let a = ext_rule(&v, ts.as_slice(), true);
    let b = ext_rule(&a, mjs.as_slice(), false);
    let c = ext_rule(&b, mts.as_slice(), false);
    let d = ext_rule(&c, jsx.as_slice(), false);
    if crate::text::chars_equal(d.as_slice(), v.as_slice()) {
        None
    } else {
        Some(crate::text::string_from_chars(d.as_slice()))
    }
}

/// The transpiler for JavaScript and TypeScript, holding the classmap that `MAP.a.b`
/// expressions are resolved against.
pub struct JsTranspiler {
    classmap: Mapping,
}

/// How a source of the given kind is compiled: as plain JavaScript modules, or through the
/// TypeScript and JSX transforms.
#[derive(Debug, Clone, Copy, PartialEq, Eq, Structural)]
pub enum JsMode {
    Plain,
    Tsx,
}

impl JsTranspiler {
    /// The classmap of this transpiler.
    pub closed spec fn spec_classmap(&self) -> Mapping {
        self.classmap
    }

    /// A transpiler that resolves classmap expressions against `classmap`.
    pub fn new(classmap: Mapping) -> (t: Self)
        ensures
            t.spec_classmap() == classmap,
    {
        Self { classmap }
    }

    /// The classmap of this transpiler.
    pub fn classmap(&self) -> (m: &Mapping)
        ensures
            *m == self.spec_classmap(),
    {
        &self.classmap
    }

    /// The kind of source this transpiler is for.
    pub fn kind(&self) -> (k: SourceKind)
        ensures
            k == SourceKind::Js,
    {
        SourceKind::Js
    }

    /// How `node` is compiled: `.js`, `.mjs` and `.mts` sources as plain modules, `.ts`,
    /// `.tsx` and `.jsx` through the transforms; any other kind is an error.
    pub fn mode(node: &SourceNode) -> (r: Result<JsMode, Error>)
        ensures
            (node.kind is Js || node.kind is Mjs || node.kind is Mts) ==> r == Ok::<JsMode, Error>(JsMode::Plain),
            (node.kind is Ts || node.kind is Tsx || node.kind is Jsx) ==> r == Ok::<JsMode, Error>(JsMode::Tsx),
            !node.kind.spec_is_js_like() ==> (r matches Err(Error::Transpile { path, message })
                && path@ == node.path@ && message@ == "JsTranspiler called with non-JS kind "@ + kind_name(node.kind)),
    {
        match node.kind {
            SourceKind::Js | SourceKind::Mjs | SourceKind::Mts => Ok(JsMode::Plain),
            SourceKind::Ts | SourceKind::Tsx | SourceKind::Jsx => Ok(JsMode::Tsx),
            other => {
                let mut message = to_owned_string("JsTranspiler called with non-JS kind ");
                let name = other.name();
                message.push_str(name.as_str());
                Err(Error::transpile(node.path.clone(), message))
            },
        }
    }

    /// The specifier with its `.ts`, `.tsx`, `.mjs`, `.mts` or `.jsx` extension turned into
    /// `.js` (a query after it is kept), or `None` when it is remote or nothing changes.
    pub fn rewrite_extension(&self, specifier: &str) -> (r: Option<String>)
        ensures
            match extension_rewrite(specifier@) {
                Some(t) => r matches Some(s) && s@ == t,
                None => r is None,
            },
    {
        rewrite_extension_of(specifier)
    }

    /// The time `specifier` is stamped with in a development build (see
    /// [`resolved_timestamp`]).
    pub fn resolve_timestamp(&self, specifier: &str, ctx: &TranspileContext) -> (t: u128)
        ensures
            t == resolved_timestamp(specifier@, ctx.spec_timestamp(), ctx.spec_dep_timestamps()),
    {
        if str_starts_with(specifier, "./") || str_starts_with(specifier, "../") {
            return ctx.build_timestamp();
        }
        match extract_module_name(specifier) {
            Some(name) => match ctx.resolve_dep_timestamp(name.as_str()) {
                Some(ts) => ts,
                None => ctx.build_timestamp(),
            },
            None => ctx.build_timestamp(),
        }
    }

    /// What the import specifier `specifier` is rewritten to in this build, if anything
    /// (see [`specifier_rewrite`]).
    pub fn rewrite_specifier(&self, specifier: &str, ctx: &TranspileContext) -> (r: Option<String>)
        ensures
            match specifier_rewrite(specifier@, ctx.spec_env().dev, ctx.spec_timestamp(), ctx.spec_dep_timestamps()) {
                Some(t) => r matches Some(s) && s@ == t,
                None => r is None,
            },
    {
        if is_remote(specifier) {
            return None;
        }
        if str_equal(specifier, "/modules/stdlib/src/expose/jsx-runtime") || str_equal(specifier, "react/jsx-runtime") {
            return Some(to_owned_string("/modules/stdlib/src/expose/jsx-runtime.js"));
        }
        if ctx.is_dev() && (str_starts_with(specifier, "./") || str_starts_with(specifier, "../")
            || str_starts_with(specifier, "/")) {
            let ts = self.resolve_timestamp(specifier, ctx);
            let mut out = to_owned_string(specifier);
            out.push_str("?t=");
            let digits = crate::text::u128_to_decimal(ts);
            out.push_str(digits.as_str());
            return Some(out);
        }
        self.rewrite_extension(specifier)
    }

    /// The class a `MAP.a.b.c` member chain resolves to.  `props` are the property names
    /// read from the outside in (`c`, `b`, `a`), `root_is_map` whether the chain starts at
    /// the identifier `MAP`.  `None` when it does not, or when the classmap does not resolve
    /// the path to a leaf.
    pub fn resolve_map_chain(props: &Vec<String>, root_is_map: bool, mapping: &Mapping) -> (r: Option<String>)
        ensures
            match map_chain_value(crate::classmap::strings_view(props@), root_is_map, *mapping) {
                Some(v) => r matches Some(s) && s@ == v,
                None => r is None,
            },
    {
        if !root_is_map {
            return None;
        }
        let mut path: Vec<&str> = Vec::new();
        let mut k = props.len();
        while k > 0
            invariant
                k <= props@.len(),
                crate::classmap::path_view(path@) == crate::classmap::strings_view(props@).skip(k as int).reverse(),
            decreases k,
        {
            k -= 1;
            let ghost before = path@;
            path.push(props[k].as_str());
            assert(crate::classmap::path_view(path@) =~= crate::classmap::path_view(before).push(props@[k as int]@));
            assert(crate::classmap::strings_view(props@).skip(k as int).reverse() =~= crate::classmap::strings_view(
                props@,
            ).skip(k + 1).reverse().push(props@[k as int]@));
        }
        assert(crate::classmap::strings_view(props@).skip(0) =~= crate::classmap::strings_view(props@));
        match mapping.resolve(path.as_slice()) {
            Ok(v) => Some(to_owned_string(v)),
            Err(_) => None,
        }
    }
}

/// The class a `MAP` member chain resolves to: the properties (read from the outside in)
/// reversed into a classmap path, and the leaf it reaches.
pub open spec fn map_chain_value(props: Seq<Seq<char>>, root_is_map: bool, m: Mapping) -> Option<Seq<char>> {
    if !root_is_map {
        None
    } else {
        match crate::classmap::walk(m, props.reverse(), 0, false) {
            LookupOutcome::Found(v) => Some(v),
            _ => None,
        }
    }
}


/// Remote specifiers are never rewritten, whatever the build.
pub proof fn law_remote_specifiers_untouched(s: Seq<char>, dev: bool, now: u128, deps: Seq<(String, u128)>)
    requires
        remote(s),
    ensures
        specifier_rewrite(s, dev, now, deps) is None,
        extension_rewrite(s) is None,
{
}

/// A specifier that holds no `.` is left to the other rules: the extension rules never
/// change it.
pub proof fn law_extension_rules_need_a_dot(s: Seq<char>)
    requires
        !s.contains('.'),
    ensures
        extension_rewrite(s) is None,
{
    lemma_no_dot_no_match(s, 0, seq!['t', 's'], true);
    lemma_no_dot_no_match(s, 0, seq!['m', 'j', 's'], false);
    lemma_no_dot_no_match(s, 0, seq!['m', 't', 's'], false);
    lemma_no_dot_no_match(s, 0, seq!['j', 's', 'x'], false);
}

/// Without a `.` from `p` on there is no extension match from `p` on.
proof fn lemma_no_dot_no_match(s: Seq<char>, p: int, ext: Seq<char>, opt_x: bool)
    requires
        !s.contains('.'),
    ensures
        first_ext_match(s, p, ext, opt_x) is None,
    decreases s.len() - p,
{
    if 0 <= p < s.len() {
        assert(s[p] != '.') by {
            if s[p] == '.' {
                assert(s.contains('.'));
            }
        }
        lemma_no_dot_no_match(s, p + 1, ext, opt_x);
    }
}


/// The character of the standard Base64 alphabet for `n` (below 64): `A`-`Z`, `a`-`z`,
/// `0`-`9`, `+`, `/`.
pub open spec fn base64_char(n: int) -> char {
    if n < 26 {
        (('A' as int) + n) as char
    } else if n < 52 {
        (('a' as int) + n - 26) as char
    } else if n < 62 {
        (('0' as int) + n - 52) as char
    } else if n == 62 {
        '+'
    } else {
        '/'
    }
}

/// The standard Base64 encoding (with `=` padding) of `bytes`: each group of three bytes
/// becomes four characters of six bits each; a last group of one or two bytes becomes two
/// or three characters and is padded to four with `=`.
pub open spec fn base64_standard(bytes: Seq<u8>) -> Seq<char>
    decreases bytes.len(),
{
    if bytes.len() == 0 {
        Seq::empty()
    } else if bytes.len() == 1 {
        let b0 = bytes[0] as int;
        seq![base64_char(b0 / 4), base64_char((b0 % 4) * 16), '=', '=']
    } else if bytes.len() == 2 {
        let (b0, b1) = (bytes[0] as int, bytes[1] as int);
        seq![base64_char(b0 / 4), base64_char((b0 % 4) * 16 + b1 / 16), base64_char((b1 % 16) * 4), '=']
    } else {
        let (b0, b1, b2) = (bytes[0] as int, bytes[1] as int, bytes[2] as int);
        seq![base64_char(b0 / 4), base64_char((b0 % 4) * 16 + b1 / 16), base64_char((b1 % 16) * 4 + b2 / 64),
            base64_char(b2 % 64)] + base64_standard(bytes.skip(3))
    }
}

/// Encodes `bytes` with `base64::engine::general_purpose::STANDARD.encode`, the standard
/// alphabet with padding, as [`base64_standard`] states it.
#[verifier::external_body]
fn base64_encode(bytes: &[u8]) -> (r: String)
    ensures
        r@ == base64_standard(bytes@),
{
    base64::Engine::encode(&base64::engine::general_purpose::STANDARD, bytes)
}

/// The comment that carries a source map inside the code, appended after it.
pub open spec fn source_map_comment(map_json: Seq<u8>) -> Seq<char> {
    "\n//# sourceMappingURL=data:application/json;charset=utf-8;base64,"@ + base64_standard(map_json) + seq!['\n']
}

/// `code` with the source map `map_json` appended as a Base64 data-URL comment.
pub fn inline_source_map(code: String, map_json: &str) -> (r: String)
    ensures
        r@ == code@ + source_map_comment(map_json.spec_bytes()),
{
    let mut out = code;
    out.push_str("\n//# sourceMappingURL=data:application/json;charset=utf-8;base64,");
    let encoded = base64_encode(map_json.as_bytes());
    out.push_str(encoded.as_str());
    out.push('\n');
    out
}

/// In a development build every relative import (`./` or `../`) is stamped with the build
/// time, and every absolute import (`/`) other than the JSX runtime with the build time or
/// the build time of one of the dependencies: the specifier comes back followed by `?t=`
/// and that time.
pub proof fn law_dev_local_imports_are_stamped(s: Seq<char>, now: u128, deps: Seq<(String, u128)>)
    ensures
        (crate::text::starts_with(s, "./"@) || crate::text::starts_with(s, "../"@)) ==> specifier_rewrite(s, true, now,
            deps) == Some(s + "?t="@ + crate::text::decimal(now as nat)),
        crate::text::starts_with(s, "/"@) && s != "/modules/stdlib/src/expose/jsx-runtime"@ ==> exists|t: u128|
            specifier_rewrite(s, true, now, deps) == Some(s + "?t="@ + crate::text::decimal(t as nat)) && (t == now
                || exists|k: int| 0 <= k < deps.len() && #[trigger] deps[k].1 == t),
{
    reveal_strlit("./");
    reveal_strlit("../");
    reveal_strlit("/");
    reveal_strlit("http://");
    reveal_strlit("https://");
    reveal_strlit("react/jsx-runtime");
    if s.len() > 0 && (s[0] == '.' || s[0] == '/') {
        assert(!remote(s)) by {
            assert("http://"@[0] == 'h');
            assert("https://"@[0] == 'h');
            if crate::text::starts_with(s, "http://"@) {
                assert(s[0] == "http://"@[0]);
            }
            if crate::text::starts_with(s, "https://"@) {
                assert(s[0] == "https://"@[0]);
            }
        }
        assert(s != "react/jsx-runtime"@) by {
            assert("react/jsx-runtime"@[0] == 'r');
        }
    }
    if crate::text::starts_with(s, "./"@) || crate::text::starts_with(s, "../"@) {
        assert(s[0] == '.') by {
            if crate::text::starts_with(s, "./"@) {
                assert(s[0] == "./"@[0]);
            } else {
                assert(s[0] == "../"@[0]);
            }
        }
        assert(s != "/modules/stdlib/src/expose/jsx-runtime"@) by {
            reveal_strlit("/modules/stdlib/src/expose/jsx-runtime");
            assert("/modules/stdlib/src/expose/jsx-runtime"@[0] == '/');
        }
    }
    if crate::text::starts_with(s, "/"@) && s != "/modules/stdlib/src/expose/jsx-runtime"@ {
        assert(s[0] == '/') by {
            assert(s[0] == "/"@[0]);
        }
        let t = resolved_timestamp(s, now, deps);
        if !(crate::text::starts_with(s, "./"@) || crate::text::starts_with(s, "../"@)) {
            match module_name_of(s) {
                Some(n) => {
                    crate::transpile::lemma_find_timestamp(deps, n);
                },
                None => {},
            }
        }
        assert(specifier_rewrite(s, true, now, deps) == Some(s + "?t="@ + crate::text::decimal(t as nat)));
    }
}

} // verus!
