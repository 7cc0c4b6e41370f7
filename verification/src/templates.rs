//! Pages rendered from mustache templates, each template compiled once and
//! then kept in a cache by file name.
//!
//! The rendering itself (`mustache::Template::render_data`) is handed in by the
//! caller: it panics on a variable tag whose value is not a string (a
//! `{{.}}` at the top of a page, say), which depends on the compiled
//! template's tags and so cannot be ruled out by a precondition here.
use vstd::prelude::*;
use vstd::utf8::{valid_utf8, decode_utf8};
use mustache::Template;
use crate::store::StrMap;
use crate::json::string_from_utf8;

verus! {

#[verifier::external_type_specification]
#[verifier::external_body]
pub struct ExTemplate(Template);

/// The path of the template file for the page `file`.
pub open spec fn template_path_spec(file: Seq<char>) -> Seq<char> {
    "templates/"@ + file + ".mst"@
}

/// The path of the template file for the page `file`: `templates/{file}.mst`.
pub fn template_path(file: &String) -> (p: String)
    ensures
        p@ == template_path_spec(file@),
{
    proof {
        reveal_strlit("templates/");
        reveal_strlit(".mst");
    }
    let p = String::from_str("templates/");
    let p = p.concat(file.as_str());
    p.concat(".mst")
}

/// Compiled templates, by the name of their page.
pub struct TemplateCache {
    cache: StrMap<Template>,
}

/// What rendering a page gave: the page, or the path of the template file that
/// must be compiled and loaded first, or bytes that are not UTF-8.
pub enum Page {
    Rendered(String),
    NotLoaded(String),
    NotUtf8,
}

/// `p` is the page that the rendered bytes `r` make: their text when they are
/// UTF-8, `NotUtf8` when they are not.
pub open spec fn page_of_bytes(p: Page, r: Seq<u8>) -> bool {
    if valid_utf8(r) {
        p matches Page::Rendered(s) && s@ == decode_utf8(r)
    } else {
        p is NotUtf8
    }
}

/// The page that the rendered bytes `bytes` make.
pub fn page_from_bytes(bytes: Vec<u8>) -> (p: Page)
    ensures
        page_of_bytes(p, bytes@),
{
    match string_from_utf8(bytes) {
        Some(s) => Page::Rendered(s),
        None => Page::NotUtf8,
    }
}

impl TemplateCache {
    /// The templates in the cache, by page name.
    pub closed spec fn templates(&self) -> Map<Seq<char>, Template> {
        self.cache@
    }

    /// An empty cache.
    pub fn new() -> (c: Self)
        ensures
            c.templates() == Map::<Seq<char>, Template>::empty(),
    {
        TemplateCache { cache: StrMap::new() }
    }

    /// Whether the template of `file` is in the cache.
    pub fn has_template(&self, file: &String) -> (b: bool)
        ensures
            b == self.templates().contains_key(file@),
    {
        self.cache.contains_key(file)
    }

    /// The cached template of `file`.
    pub fn template_for(&self, file: &String) -> (t: &Template)
        requires
            self.templates().contains_key(file@),
        ensures
            *t == self.templates()[file@],
    {
        self.cache.get(file).unwrap()
    }

    /// Puts `tmpl`, compiled from `template_path(file)`, into the cache as the
    /// template of `file`.
    pub fn load_template(&mut self, file: &String, tmpl: Template)
        ensures
            final(self).templates() == old(self).templates().insert(file@, tmpl),
    {
        self.cache.insert(file.clone(), tmpl);
    }
}

/// A template, once loaded, stays the template of its file when other files
/// are loaded after it, so its pages are rendered from it without reloading.
pub proof fn lemma_loaded_template_stays(
    templates: Map<Seq<char>, Template>,
    file: Seq<char>,
    tmpl: Template,
    other: Seq<char>,
    other_tmpl: Template,
)
    requires
        other != file,
    ensures
        templates.insert(file, tmpl).contains_key(file),
        templates.insert(file, tmpl)[file] == tmpl,
        templates.insert(file, tmpl).insert(other, other_tmpl)[file] == tmpl,
{
}

/// Renders the page `filename` from its cached template, with `render` (which
/// writes a template's page for the caller's data); `NotLoaded` with the
/// template's path when the cache does not hold it, in which case `render` is
/// not called.
pub fn template<F: FnOnce(&Template) -> Vec<u8>>(
    cache: &TemplateCache,
    filename: &String,
    render: F,
) -> (p: Page)
    requires
        cache.templates().contains_key(filename@) ==> render.requires(
            (&cache.templates()[filename@],),
        ),
    ensures
        p is NotLoaded <==> !cache.templates().contains_key(filename@),
        p matches Page::NotLoaded(path) ==> path@ == template_path_spec(filename@),
        cache.templates().contains_key(filename@) ==> exists|r: Vec<u8>|
            #![trigger render.ensures((&cache.templates()[filename@],), r)]
            render.ensures((&cache.templates()[filename@],), r) && page_of_bytes(p, r@),
{
    if cache.has_template(filename) {
        let bytes = render(cache.template_for(filename));
        page_from_bytes(bytes)
    } else {
        Page::NotLoaded(template_path(filename))
    }
}

} // verus!
