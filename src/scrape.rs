use vstd::prelude::*;
use vstd::string::*;

use crate::codec::{parse_decimal, parse_u32};
use crate::ModError;

verus! {

/// One downloadable file of a mod.
#[derive(Debug, Clone)]
pub struct ModFile {
    pub id: u32,
    pub name: String,
    pub description: String,
}

impl View for ModFile {
    type V = (u32, Seq<char>, Seq<char>);

    open spec fn view(&self) -> Self::V {
        (self.id, self.name@, self.description@)
    }
}

impl ModFile {
    /// The line that presents the file in a choice: its name, three spaces, its description.
    pub fn label(&self) -> (r: String)
        ensures
            r@ == self.name@ + "   "@ + self.description@,
    {
        let mut s = self.name.clone();
        s.append("   ");
        s.append(self.description.as_str());
        s
    }
}

/// The files of a mod, in three tiers.
#[derive(Debug)]
pub struct ModFiles {
    pub main_files: Vec<ModFile>,
    pub optional_files: Vec<ModFile>,
    pub misc_files: Vec<ModFile>,
}

/// A requirement of a mod: another mod of the same game, or an outside link.
#[derive(Debug, Clone)]
pub enum ModDependency {
    Mod(u32),
    External(String),
}

pub open spec fn opt_view(o: Option<String>) -> Option<Seq<char>> {
    match o {
        Some(s) => Some(s@),
        None => None,
    }
}

/// The attribute `attr` of the first element of an HTML document that `css` selects.
pub uninterp spec fn first_attr_of(page: Seq<char>, css: Seq<char>, attr: Seq<char>) -> Option<Seq<char>>;

/// The first text node under the first element of an HTML document that `css` selects.
pub uninterp spec fn first_text_of(page: Seq<char>, css: Seq<char>) -> Option<Seq<char>>;

/// What a definition block yields: the id and name attributes of its title, and the text of
/// its description.
pub type FileBlock = (Option<String>, Option<String>, String);

pub open spec fn block_view(b: FileBlock) -> (Option<Seq<char>>, Option<Seq<char>>, Seq<char>) {
    (opt_view(b.0), opt_view(b.1), b.2@)
}

/// For each element of a document that `css` selects, in document order: the attributes
/// `id_attr` and `name_attr` of the first element inside it that `title_css` selects, and the
/// text under all elements inside it that `description_css` selects, joined.
pub uninterp spec fn file_blocks_of(
    page: Seq<char>,
    css: Seq<char>,
    title_css: Seq<char>,
    id_attr: Seq<char>,
    name_attr: Seq<char>,
    description_css: Seq<char>,
) -> Seq<(Option<Seq<char>>, Option<Seq<char>>, Seq<char>)>;

/// The attribute `attr` of each element of an HTML fragment that `css` selects.
pub uninterp spec fn fragment_attrs_of(fragment: Seq<char>, css: Seq<char>, attr: Seq<char>) -> Seq<Option<Seq<char>>>;

/// Relies on scraper's `Html::parse_document`, `Selector::parse`, `Html::select` and
/// `Element::attr`: the attribute of the first selected element, if any.
#[verifier::external_body]
fn scrape_first_attr(page: &str, css: &str, attr: &str) -> (r: Option<String>)
    ensures
        opt_view(r) == first_attr_of(page@, css@, attr@),
{
    let html = scraper::Html::parse_document(page);
    let selector = scraper::Selector::parse(css).ok()?;
    let element = html.select(&selector).next()?;
    element.value().attr(attr).map(|a| a.to_string())
}

/// Relies on scraper's `Html::parse_document`, `Selector::parse`, `Html::select` and
/// `ElementRef::text`: the first text node under the first selected element, if any.
#[verifier::external_body]
fn scrape_first_text(page: &str, css: &str) -> (r: Option<String>)
    ensures
        opt_view(r) == first_text_of(page@, css@),
{
    let html = scraper::Html::parse_document(page);
    let selector = scraper::Selector::parse(css).ok()?;
    let element = html.select(&selector).next()?;
    element.text().next().map(|t| t.to_string())
}

/// Relies on scraper's `Html::parse_document`, `Selector::parse`, `Html::select`,
/// `ElementRef::select`, `Element::attr` and `ElementRef::text`: one block for each selected
/// element, read inside that element; no block when a selector does not parse.
#[verifier::external_body]
fn scrape_file_blocks(
    page: &str,
    css: &str,
    title_css: &str,
    id_attr: &str,
    name_attr: &str,
    description_css: &str,
) -> (r: Vec<FileBlock>)
    ensures
        r@.map_values(|b: FileBlock| block_view(b)) == file_blocks_of(page@, css@, title_css@, id_attr@, name_attr@, description_css@),
{
    let html = scraper::Html::parse_document(page);
    let parse = scraper::Selector::parse;
    match (parse(css), parse(title_css), parse(description_css)) {
        (Ok(outer), Ok(title), Ok(description)) => html.select(&outer).map(|e| {
            let t = e.select(&title).next();
            let attr = |a: &str| t.and_then(|t| t.value().attr(a)).map(|v| v.to_string());
            (attr(id_attr), attr(name_attr), e.select(&description).flat_map(|d| d.text()).collect())
        }).collect(),
        _ => Vec::new(),
    }
}

/// Relies on scraper's `Html::parse_fragment`, `Selector::parse`, `Html::select` and
/// `Element::attr`: the attribute of every selected element of a fragment.
#[verifier::external_body]
fn scrape_fragment_attrs(fragment: &str, css: &str, attr: &str) -> (r: Vec<Option<String>>)
    ensures
        r@.map_values(|o: Option<String>| opt_view(o)) == fragment_attrs_of(fragment@, css@, attr@),
{
    let html = scraper::Html::parse_fragment(fragment);
    match scraper::Selector::parse(css) {
        Ok(selector) => html.select(&selector).map(|e| e.value().attr(attr).map(|a| a.to_string())).collect(),
        Err(_) => Vec::new(),
    }
}

/// The download URL that a download page carries, given what its slow-download control
/// holds: a missing control or attribute is a failed extraction, never a default.
pub fn download_url_from(attr: Option<String>) -> (r: Result<String, ModError>)
    ensures
        match opt_view(attr) {
            Some(u) => r is Ok && r->Ok_0@ == u,
            None => r == Err::<String, ModError>(ModError::ExtractionFailed),
        },
{
    match attr {
        Some(u) => Ok(u),
        None => Err(ModError::ExtractionFailed),
    }
}

pub open spec fn download_attr_of(page: Seq<char>) -> Option<Seq<char>> {
    first_attr_of(page, "#slowDownloadButton"@, "data-download-url"@)
}

/// The signed download URL on a file's download page: the `data-download-url` attribute of
/// the element with id `slowDownloadButton`.
pub fn install_link_in_page(page: &str) -> (r: Result<String, ModError>)
    ensures
        match download_attr_of(page@) {
            Some(u) => r is Ok && r->Ok_0@ == u,
            None => r == Err::<String, ModError>(ModError::ExtractionFailed),
        },
{
    download_url_from(scrape_first_attr(page, "#slowDownloadButton", "data-download-url"))
}

pub open spec fn mod_name_of(page: Seq<char>) -> Option<Seq<char>> {
    first_text_of(page, "h1"@)
}

/// The name of a mod on its landing page: the first text of its first `h1` heading.
pub fn mod_name_in_page(page: &str) -> (r: Result<String, ModError>)
    ensures
        match mod_name_of(page@) {
            Some(n) => r is Ok && r->Ok_0@ == n,
            None => r == Err::<String, ModError>(ModError::ExtractionFailed),
        },
{
    match scrape_first_text(page, "h1") {
        Some(n) => Ok(n),
        None => Err(ModError::ExtractionFailed),
    }
}

/// The file that a definition block describes, given the `data-id` and `data-name` of its
/// title and the text of its description: both attributes must be there and the id must
/// read as a `u32`.
pub open spec fn file_from(id: Option<Seq<char>>, name: Option<Seq<char>>, description: Seq<char>) -> Option<(u32, Seq<char>, Seq<char>)> {
    match (id, name) {
        (Some(i), Some(n)) => match parse_u32(i) {
            Some(v) => Some((v, n, description)),
            None => None,
        },
        _ => None,
    }
}

/// Builds a file from what its definition block holds.
pub fn mod_file_from(id_attr: &Option<String>, name_attr: &Option<String>, description: &String) -> (r: Result<ModFile, ModError>)
    ensures
        match file_from(opt_view(*id_attr), opt_view(*name_attr), description@) {
            Some(f) => r is Ok && r->Ok_0@ == f,
            None => r == Err::<ModFile, ModError>(ModError::ExtractionFailed),
        },
{
    match (id_attr, name_attr) {
        (Some(i), Some(name)) => match parse_decimal(i.as_str()) {
            Some(id) => Ok(ModFile { id, name: name.clone(), description: description.clone() }),
            None => Err(ModError::ExtractionFailed),
        },
        _ => Err(ModError::ExtractionFailed),
    }
}

pub open spec fn file_in_block(block: (Option<Seq<char>>, Option<Seq<char>>, Seq<char>)) -> Option<(u32, Seq<char>, Seq<char>)> {
    file_from(block.0, block.1, block.2)
}

/// The files that a sequence of definition blocks describes, or none if one of them fails.
pub open spec fn files_in_blocks(blocks: Seq<(Option<Seq<char>>, Option<Seq<char>>, Seq<char>)>) -> Option<Seq<(u32, Seq<char>, Seq<char>)>>
    decreases blocks.len(),
{
    if blocks.len() == 0 {
        Some(Seq::empty())
    } else {
        match (files_in_blocks(blocks.drop_last()), file_in_block(blocks.last())) {
            (Some(fs), Some(f)) => Some(fs.push(f)),
            _ => None,
        }
    }
}

/// The blocks of a files page under `css`, each read from its `dt` title and its
/// description region.
pub open spec fn blocks_in_container(page: Seq<char>, css: Seq<char>) -> Seq<(Option<Seq<char>>, Option<Seq<char>>, Seq<char>)> {
    file_blocks_of(page, css, "dt"@, "data-id"@, "data-name"@, ".files-description > *"@)
}

pub open spec fn files_in_container(page: Seq<char>, css: Seq<char>) -> Option<Seq<(u32, Seq<char>, Seq<char>)>> {
    files_in_blocks(blocks_in_container(page, css))
}

/// One file for each definition block that `css` selects on a files page; a container with
/// no block gives an empty sequence.
pub fn files_in_container_html(page: &str, css: &str) -> (r: Result<Vec<ModFile>, ModError>)
    ensures
        match files_in_container(page@, css@) {
            Some(fs) => r is Ok && r->Ok_0@.map_values(|f: ModFile| f@) == fs,
            None => r == Err::<Vec<ModFile>, ModError>(ModError::ExtractionFailed),
        },
        blocks_in_container(page@, css@).len() == 0 ==> r is Ok && r->Ok_0@.len() == 0,
{
    let blocks = scrape_file_blocks(page, css, "dt", "data-id", "data-name", ".files-description > *");
    let ghost bs = blocks_in_container(page@, css@);
    let mut files: Vec<ModFile> = Vec::new();
    let mut i: usize = 0;
    assert(bs.subrange(0, 0) =~= Seq::<(Option<Seq<char>>, Option<Seq<char>>, Seq<char>)>::empty());
    assert(blocks@.len() == blocks@.map_values(|b: FileBlock| block_view(b)).len());
    while i < blocks.len()
        invariant
            i <= blocks@.len(),
            blocks@.map_values(|b: FileBlock| block_view(b)) == bs,
            blocks@.len() == bs.len(),
            bs == blocks_in_container(page@, css@),
            files_in_blocks(bs.subrange(0, i as int)) == Some(files@.map_values(|f: ModFile| f@)),
        decreases blocks@.len() - i,
    {
        let ghost pre = bs.subrange(0, i as int + 1);
        assert(pre.drop_last() =~= bs.subrange(0, i as int));
        assert(pre.last() == block_view(blocks@[i as int]));
        let block = &blocks[i];
        let f = mod_file_from(&block.0, &block.1, &block.2);
        match f {
            Ok(f) => {
                files.push(f);
                assert(files@.map_values(|f: ModFile| f@) =~= files_in_blocks(pre)->Some_0);
            },
            Err(e) => {
                assert(files_in_blocks(pre) is None);
                proof { lemma_blocks_fail(bs, i as int + 1); }
                return Err(e);
            },
        }
        i = i + 1;
    }
    assert(bs.subrange(0, i as int) =~= bs);
    assert(files@.len() == files@.map_values(|f: ModFile| f@).len());
    Ok(files)
}

/// Once a prefix of the blocks fails, the whole sequence fails.
pub proof fn lemma_blocks_fail(bs: Seq<(Option<Seq<char>>, Option<Seq<char>>, Seq<char>)>, k: int)
    requires
        0 <= k <= bs.len(),
        files_in_blocks(bs.subrange(0, k)) is None,
    ensures
        files_in_blocks(bs) is None,
    decreases bs.len() - k,
{
    if k < bs.len() {
        let next = bs.subrange(0, k + 1);
        assert(next.drop_last() =~= bs.subrange(0, k));
        lemma_blocks_fail(bs, k + 1);
    } else {
        assert(bs.subrange(0, k) =~= bs);
    }
}

pub open spec fn main_css() -> Seq<char> {
    "#file-container-main-files dl"@
}

pub open spec fn optional_css() -> Seq<char> {
    "#file-container-optional-files dl"@
}

pub open spec fn misc_css() -> Seq<char> {
    "#file-container-miscellaneous-files dl"@
}

/// The catalog of a mod's files page: the main, optional and miscellaneous files, each one
/// from a definition block of its container.
pub fn mod_files_in_page(page: &str) -> (r: Result<ModFiles, ModError>)
    ensures
        match (
            files_in_container(page@, main_css()),
            files_in_container(page@, optional_css()),
            files_in_container(page@, misc_css()),
        ) {
            (Some(m), Some(o), Some(x)) => r is Ok
                && r->Ok_0.main_files@.map_values(|f: ModFile| f@) == m
                && r->Ok_0.optional_files@.map_values(|f: ModFile| f@) == o
                && r->Ok_0.misc_files@.map_values(|f: ModFile| f@) == x,
            _ => r == Err::<ModFiles, ModError>(ModError::ExtractionFailed),
        },
        r is Ok && blocks_in_container(page@, optional_css()).len() == 0
            ==> r->Ok_0.optional_files@.len() == 0,
{
    let main_files = files_in_container_html(page, "#file-container-main-files dl")?;
    let optional_files = files_in_container_html(page, "#file-container-optional-files dl")?;
    let misc_files = files_in_container_html(page, "#file-container-miscellaneous-files dl")?;
    Ok(ModFiles { main_files, optional_files, misc_files })
}

/// What a requirement link stands for: a mod of the game, by id, or an outside URL.
pub enum DependencyRef {
    InternalMod(u32),
    ExternalLink(Seq<char>),
}

impl View for ModDependency {
    type V = DependencyRef;

    open spec fn view(&self) -> DependencyRef {
        match self {
            ModDependency::Mod(id) => DependencyRef::InternalMod(*id),
            ModDependency::External(url) => DependencyRef::ExternalLink(url@),
        }
    }
}

/// The start of a link to a mod of `game` on the hosting site.
pub open spec fn mod_link_prefix(game: Seq<char>) -> Seq<char> {
    "https://www.nexusmods.com/"@ + game + "/mods/"@
}

pub open spec fn has_prefix(s: Seq<char>, p: Seq<char>) -> bool {
    p.len() <= s.len() && s.subrange(0, p.len() as int) == p
}

/// What follows the last `/` of `s` (all of `s` when it has none).
pub open spec fn last_segment(s: Seq<char>) -> Seq<char>
    decreases s.len(),
{
    if s.len() == 0 {
        Seq::empty()
    } else if s.last() == '/' {
        Seq::empty()
    } else {
        last_segment(s.drop_last()).push(s.last())
    }
}

/// How a requirement link is read: a link under the game's mod path names a mod by its
/// last path segment, which must be a `u32`; any other link is outside.
pub open spec fn classify(game: Seq<char>, href: Seq<char>) -> Option<DependencyRef> {
    if has_prefix(href, mod_link_prefix(game)) {
        match parse_u32(last_segment(href)) {
            Some(id) => Some(DependencyRef::InternalMod(id)),
            None => None,
        }
    } else {
        Some(DependencyRef::ExternalLink(href))
    }
}

/// Whether `s` starts with `p`.
pub fn starts_with(s: &str, p: &str) -> (r: bool)
    ensures
        r == has_prefix(s@, p@),
{
    let n = s.unicode_len();
    let m = p.unicode_len();
    if m > n {
        return false;
    }
    let mut i: usize = 0;
    while i < m
        invariant
            m <= n,
            n == s@.len(),
            m == p@.len(),
            i <= m,
            s@.subrange(0, i as int) == p@.subrange(0, i as int),
        decreases m - i,
    {
        if s.get_char(i) != p.get_char(i) {
            assert(s@.subrange(0, m as int)[i as int] != p@[i as int]);
            return false;
        }
        assert(s@.subrange(0, i as int + 1) =~= p@.subrange(0, i as int + 1));
        i = i + 1;
    }
    assert(p@.subrange(0, m as int) =~= p@);
    true
}

/// The text after the last `/` of `s`.
pub fn last_segment_of(s: &str) -> (r: &str)
    ensures
        r@ == last_segment(s@),
{
    let n = s.unicode_len();
    let mut start: usize = 0;
    let mut i: usize = 0;
    assert(s@.subrange(0, 0) =~= Seq::<char>::empty());
    while i < n
        invariant
            n == s@.len(),
            start <= i <= n,
            last_segment(s@.subrange(0, i as int)) == s@.subrange(start as int, i as int),
        decreases n - i,
    {
        let ghost pre = s@.subrange(0, i as int + 1);
        assert(pre.drop_last() =~= s@.subrange(0, i as int));
        if s.get_char(i) == '/' {
            start = i + 1;
            assert(s@.subrange(start as int, i as int + 1) =~= Seq::<char>::empty());
        } else {
            assert(s@.subrange(start as int, i as int + 1) =~= s@.subrange(start as int, i as int).push(s@[i as int]));
        }
        i = i + 1;
    }
    assert(s@.subrange(0, n as int) =~= s@);
    s.substring_char(start, n)
}

/// Reads one requirement link of a mod of `game`.
pub fn classify_dependency(game: &str, href: &str) -> (r: Result<ModDependency, ModError>)
    ensures
        match classify(game@, href@) {
            Some(d) => r is Ok && r->Ok_0@ == d,
            None => r == Err::<ModDependency, ModError>(ModError::ExtractionFailed),
        },
{
    let mut prefix = String::from_str("https://www.nexusmods.com/");
    prefix.append(game);
    prefix.append("/mods/");
    if starts_with(href, prefix.as_str()) {
        match parse_decimal(last_segment_of(href)) {
            Some(id) => Ok(ModDependency::Mod(id)),
            None => Err(ModError::ExtractionFailed),
        }
    } else {
        Ok(ModDependency::External(String::from_str(href)))
    }
}

/// The requirements that a list of links gives, or none if a link is missing or unreadable.
pub open spec fn classify_all(game: Seq<char>, hrefs: Seq<Option<Seq<char>>>) -> Option<Seq<DependencyRef>>
    decreases hrefs.len(),
{
    if hrefs.len() == 0 {
        Some(Seq::empty())
    } else {
        match (classify_all(game, hrefs.drop_last()), hrefs.last()) {
            (Some(ds), Some(h)) => match classify(game, h) {
                Some(d) => Some(ds.push(d)),
                None => None,
            },
            _ => None,
        }
    }
}

pub open spec fn requirement_css() -> Seq<char> {
    "widget-mod-requirements ul li a"@
}

pub open spec fn dependencies_of(game: Seq<char>, fragment: Seq<char>) -> Option<Seq<DependencyRef>> {
    classify_all(game, fragment_attrs_of(fragment, requirement_css(), "href"@))
}

pub proof fn lemma_classify_fail(game: Seq<char>, hs: Seq<Option<Seq<char>>>, k: int)
    requires
        0 <= k <= hs.len(),
        classify_all(game, hs.subrange(0, k)) is None,
    ensures
        classify_all(game, hs) is None,
    decreases hs.len() - k,
{
    if k < hs.len() {
        assert(hs.subrange(0, k + 1).drop_last() =~= hs.subrange(0, k));
        lemma_classify_fail(game, hs, k + 1);
    } else {
        assert(hs.subrange(0, k) =~= hs);
    }
}

/// The requirements listed in a mod-requirements popup fragment, in order: one for each
/// requirement link.
pub fn dependencies_in_fragment(game: &str, fragment: &str) -> (r: Result<Vec<ModDependency>, ModError>)
    ensures
        match dependencies_of(game@, fragment@) {
            Some(ds) => r is Ok && r->Ok_0@.map_values(|d: ModDependency| d@) == ds,
            None => r == Err::<Vec<ModDependency>, ModError>(ModError::ExtractionFailed),
        },
{
    let hrefs = scrape_fragment_attrs(fragment, "widget-mod-requirements ul li a", "href");
    let ghost hs = fragment_attrs_of(fragment@, requirement_css(), "href"@);
    assert(hrefs@.len() == hrefs@.map_values(|o: Option<String>| opt_view(o)).len());
    assert(hs.subrange(0, 0) =~= Seq::<Option<Seq<char>>>::empty());
    let mut deps: Vec<ModDependency> = Vec::new();
    let mut i: usize = 0;
    while i < hrefs.len()
        invariant
            i <= hrefs@.len(),
            hrefs@.len() == hs.len(),
            hrefs@.map_values(|o: Option<String>| opt_view(o)) == hs,
            hs == fragment_attrs_of(fragment@, requirement_css(), "href"@),
            classify_all(game@, hs.subrange(0, i as int)) == Some(deps@.map_values(|d: ModDependency| d@)),
        decreases hrefs@.len() - i,
    {
        let ghost pre = hs.subrange(0, i as int + 1);
        assert(pre.drop_last() =~= hs.subrange(0, i as int));
        assert(pre.last() == opt_view(hrefs@[i as int]));
        match &hrefs[i] {
            Some(h) => match classify_dependency(game, h.as_str()) {
                Ok(d) => {
                    deps.push(d);
                    assert(deps@.map_values(|d: ModDependency| d@) =~= classify_all(game@, pre)->Some_0);
                },
                Err(e) => {
                    assert(classify_all(game@, pre) is None);
                    proof { lemma_classify_fail(game@, hs, i as int + 1); }
                    return Err(e);
                },
            },
            None => {
                assert(classify_all(game@, pre) is None);
                proof { lemma_classify_fail(game@, hs, i as int + 1); }
                return Err(ModError::ExtractionFailed);
            },
        }
        i = i + 1;
    }
    assert(hs.subrange(0, i as int) =~= hs);
    Ok(deps)
}

} // verus!
