use vstd::prelude::*;

use crate::classmap::Mapping;
use crate::transpile::css::{
    lemma_maps_error_kind, lemma_prelude_error_kind, lemma_sel_error_kind, lightningcss_output, maps_out, prelude_out,
    reports_message, sel_out, strict_class_lookup, strict_result, ClassRules, Remapped,
};
use crate::text::to_owned_string;

pub use crate::classmap::lookup_mapping_path;
pub use crate::transpile::css::is_keyframes_prelude;

verus! {

/// The stylesheet transpiler with strict classmap rules: a class name whose parts are only
/// partly found, or that ends at an inner node, is an error.
pub struct CssTranspiler {
    mapping: Mapping,
}

/// The message of a failed lightningcss run.
pub open spec fn strict_autoprefix_message(parse: bool, msg: Seq<char>) -> Seq<char> {
    (if parse { "Failed to parse CSS: "@ } else { "Failed to serialize CSS: "@ }) + msg
}

/// What the whole strict CSS pass makes of `css`, given what lightningcss made of it.
pub open spec fn strict_process(out: Result<Seq<char>, (bool, Seq<char>)>, m: Mapping) -> Remapped {
    match out {
        Err((parse, msg)) => Err(crate::transpile::css::RemapError::Message(strict_autoprefix_message(parse, msg))),
        Ok(code) => crate::transpile::css::remapped_css(code, m, ClassRules::Strict),
    }
}

impl CssTranspiler {
    /// The classmap of this transpiler.
    pub closed spec fn spec_mapping(&self) -> Mapping {
        self.mapping
    }

    /// A transpiler that rewrites class names by `mapping`.
    pub fn new(mapping: Mapping) -> (t: Self)
        ensures
            t.spec_mapping() == mapping,
    {
        Self { mapping }
    }

    /// The CSS pass: lightningcss, then the rule selectors, then the classmap expressions,
    /// all under the strict rules.
    pub fn process_css(&self, css: &str) -> (r: Result<String, String>)
        ensures
            reports_message(r, strict_process(lightningcss_output(css@), self.spec_mapping())),
    {
        let printed = match crate::transpile::css::lightningcss_print(css) {
            Ok(code) => code,
            Err((parse, msg)) => {
                let mut message = if parse {
                    to_owned_string("Failed to parse CSS: ")
                } else {
                    to_owned_string("Failed to serialize CSS: ")
                };
                message.push_str(msg.as_str());
                return Err(message);
            },
        };
        let selected = remap_css_selectors(printed.as_str(), &self.mapping)?;
        remap_css_classmap_expressions(selected.as_str(), &self.mapping)
    }
}

/// Rewrites the class names in the rule selectors of `css` under the strict rules (see
/// [`sel_out`]).
pub fn remap_css_selectors(css: &str, mapping: &Mapping) -> (r: Result<String, String>)
    ensures
        reports_message(r, sel_out(css@, 0, 0, false, None, Seq::empty(), *mapping, ClassRules::Strict)),
{
    let r = crate::transpile::css::remap_selectors_with(css, mapping, ClassRules::Strict);
    proof {
        lemma_sel_error_kind(css@, 0, 0, false, None, Seq::empty(), *mapping, ClassRules::Strict);
    }
    strict_result(r)
}

/// Rewrites the class names of one selector prelude under the strict rules (see
/// [`prelude_out`]).
pub fn remap_selector_segment(segment: &str, mapping: &Mapping) -> (r: Result<String, String>)
    ensures
        reports_message(r, prelude_out(segment@, 0, None, 0, *mapping, ClassRules::Strict)),
{
    let r = crate::transpile::css::remap_prelude_with(segment, mapping, ClassRules::Strict);
    proof {
        lemma_prelude_error_kind(segment@, 0, None, 0, *mapping, ClassRules::Strict);
    }
    strict_result(r)
}

/// The class a class name maps to under the strict rules: its `__`-separated parts looked
/// up strictly (see [`strict_class_lookup`]).
pub fn remap_class_name(name: &str, mapping: &Mapping) -> (r: Result<Option<String>, String>)
    ensures
        crate::classmap::strict_reports(r, strict_class_lookup(*mapping, name@)),
{
    let chars = crate::text::str_chars(name);
    let sep: Vec<char> = vec!['_', '_'];
    assert(sep@ =~= crate::transpile::css::dunder());
    let pieces = crate::text::split_chars(chars.as_slice(), sep.as_slice());
    let mut owned: Vec<String> = Vec::new();
    let mut k: usize = 0;
    while k < pieces.len()
        invariant
            k <= pieces@.len(),
            crate::classmap::chars_view(pieces@) == crate::text::split_by(name@, crate::transpile::css::dunder()),
            crate::classmap::strings_view(owned@) == crate::classmap::chars_view(pieces@).take(k as int),
        decreases pieces@.len() - k,
    {
        let ghost before = owned@;
        owned.push(crate::text::string_from_chars(pieces[k].as_slice()));
        assert(crate::classmap::strings_view(owned@) =~= crate::classmap::strings_view(before).push(pieces@[k as int]@));
        assert(crate::classmap::strings_view(owned@) =~= crate::classmap::chars_view(pieces@).take(k + 1));
        k += 1;
    }
    assert(crate::classmap::chars_view(pieces@).take(k as int) =~= crate::classmap::chars_view(pieces@));
    proof {
        reveal_strlit("__");
        assert("__"@ =~= crate::transpile::css::dunder());
    }
    crate::classmap::strict_lookup_strings(mapping, &owned, "__", name)
}

/// Replaces the classmap expressions of `css` under the strict rules (see [`maps_out`]).
pub fn remap_css_classmap_expressions(css: &str, mapping: &Mapping) -> (r: Result<String, String>)
    ensures
        reports_message(r, maps_out(css@, 0, *mapping, ClassRules::Strict)),
{
    let r = crate::transpile::css::remap_map_expressions_with(css, mapping, ClassRules::Strict);
    proof {
        lemma_maps_error_kind(css@, 0, *mapping, ClassRules::Strict);
    }
    strict_result(r)
}

/// The `--content` argument handed to the Tailwind CLI: the content files written with
/// forward slashes and joined by commas; `None` when there are none.
pub fn tailwind_content_arg(files: &Vec<String>) -> (r: Option<String>)
    ensures
        files@.len() == 0 ==> r is None,
        files@.len() > 0 ==> (r matches Some(s) && s@ == crate::classmap::joined(
            crate::classmap::strings_view(files@).map_values(|f: Seq<char>| crate::util::forward_slashes(f)),
            seq![','],
        )),
{
    if files.len() == 0 {
        return None;
    }
    let mut normalized: Vec<String> = Vec::new();
    let mut k: usize = 0;
    while k < files.len()
        invariant
            k <= files@.len(),
            crate::classmap::strings_view(normalized@) == crate::classmap::strings_view(files@).map_values(
                |f: Seq<char>| crate::util::forward_slashes(f),
            ).take(k as int),
        decreases files@.len() - k,
    {
        let ghost before = normalized@;
        normalized.push(crate::util::normalize_slashes(files[k].as_str()));
        assert(crate::classmap::strings_view(normalized@) =~= crate::classmap::strings_view(before).push(
            crate::util::forward_slashes(files@[k as int]@),
        ));
        assert(crate::classmap::strings_view(normalized@) =~= crate::classmap::strings_view(files@).map_values(
            |f: Seq<char>| crate::util::forward_slashes(f),
        ).take(k + 1));
        k += 1;
    }
    let joined = crate::classmap::join_prefix(&normalized, normalized.len(), ",");
    proof {
        reveal_strlit(",");
        assert(crate::classmap::strings_view(normalized@).take(normalized@.len() as int) =~= crate::classmap::strings_view(
            files@,
        ).map_values(|f: Seq<char>| crate::util::forward_slashes(f)));
        assert(","@ =~= seq![',']);
    }
    Some(joined)
}

} // verus!
