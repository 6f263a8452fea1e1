//! The entries of the EPUB archive, in the order they are written, and the
//! checks that an EPUB archive holds what readers need.

use vstd::prelude::*;
use crate::epub::{
    chapter_xhtml, chapter_xhtml_spec, container_xml, container_xml_text, content_opf_at, content_opf_spec,
    epub_stylesheet, epub_stylesheet_spec, nav_xhtml, rfc3339_shape, nav_xhtml_spec, toc_ncx, toc_ncx_spec, BookMetadata, Chapter,
    ManifestItem,
};
use crate::naming::{lemma_image_media_type_prefix, media_type_for_path, media_type_spec};
use crate::text::{
    chars_of, ends_with, push_str, starts_with, string_of, trim, trim_end, trim_start, ws_run,
    ws_run_back, vec_ends_with, vec_eq,
    vec_starts_with, vec_trim,
};

verus! {

/// The bytes of the assets of the book, by name.
pub struct AssetData {
    pairs: Vec<(String, Vec<u8>)>,
}

/// The map that a list of insertions builds, a later insertion of a name
/// replacing an earlier one.
pub open spec fn bytes_map(pairs: Seq<(String, Vec<u8>)>) -> Map<Seq<char>, Seq<u8>>
    decreases pairs.len(),
{
    if pairs.len() == 0 {
        Map::empty()
    } else {
        bytes_map(pairs.drop_last()).insert(pairs.last().0@, pairs.last().1@)
    }
}

impl View for AssetData {
    type V = Map<Seq<char>, Seq<u8>>;

    closed spec fn view(&self) -> Map<Seq<char>, Seq<u8>> {
        bytes_map(self.pairs@)
    }
}

impl AssetData {
    /// No assets.
    pub fn new() -> (d: AssetData)
        ensures
            d@ == Map::<Seq<char>, Seq<u8>>::empty(),
    {
        AssetData { pairs: Vec::new() }
    }

    /// Stores `bytes` under `name`, replacing what was stored there.
    pub fn insert(&mut self, name: String, bytes: Vec<u8>)
        ensures
            final(self)@ == old(self)@.insert(name@, bytes@),
    {
        let ghost before = self.pairs@;
        self.pairs.push((name, bytes));
        assert(self.pairs@.drop_last() =~= before);
    }

    /// The bytes stored under `name`.
    pub fn get(&self, name: &str) -> (r: Option<&Vec<u8>>)
        ensures
            r is Some <==> self@.contains_key(name@),
            r matches Some(v) ==> v@ == self@[name@],
    {
        let k = name.to_owned();
        let mut found: Option<usize> = None;
        let mut i: usize = 0;
        while i < self.pairs.len()
            invariant
                i <= self.pairs@.len(),
                k@ == name@,
                match found {
                    Some(j) => j < i && bytes_map(self.pairs@.take(i as int)).contains_key(k@)
                        && bytes_map(self.pairs@.take(i as int))[k@] == self.pairs@[j as int].1@,
                    None => !bytes_map(self.pairs@.take(i as int)).contains_key(k@),
                },
            decreases self.pairs.len() - i,
        {
            assert(self.pairs@.take(i + 1).drop_last() =~= self.pairs@.take(i as int));
            if self.pairs[i].0 == k {
                found = Some(i);
            }
            i = i + 1;
        }
        assert(self.pairs@.take(self.pairs@.len() as int) =~= self.pairs@);
        match found {
            Some(j) => Some(&self.pairs[j].1),
            None => None,
        }
    }
}

/// What an entry of the archive holds.
pub enum ZipData {
    Text(String),
    Bytes(Vec<u8>),
}

/// An entry of the archive: its name, what it holds, and whether it is
/// stored uncompressed (else it is deflated).
pub struct ZipEntry {
    pub name: String,
    pub data: ZipData,
    pub stored: bool,
}

/// What an entry holds, by its characters or bytes.
pub enum DataSpec {
    Text(Seq<char>),
    Bytes(Seq<u8>),
}

pub open spec fn entry_view(e: ZipEntry) -> (Seq<char>, DataSpec, bool) {
    (
        e.name@,
        match e.data {
            ZipData::Text(t) => DataSpec::Text(t@),
            ZipData::Bytes(b) => DataSpec::Bytes(b@),
        },
        e.stored,
    )
}

pub open spec fn entries_view(v: Seq<ZipEntry>) -> Seq<(Seq<char>, DataSpec, bool)> {
    v.map_values(|e: ZipEntry| entry_view(e))
}

/// Where the style sheet lies under `OEBPS/`.
pub open spec fn css_path() -> Seq<char> {
    "styles/epub.css"@
}

/// The entries for the first `n` chapters.
pub open spec fn chapter_entries(chs: Seq<Chapter>, n: int) -> Seq<(Seq<char>, DataSpec, bool)>
    decreases n,
{
    if n <= 0 {
        Seq::empty()
    } else {
        chapter_entries(chs, n - 1).push(
            (
                "OEBPS/"@ + chs[n - 1].xhtml_path@,
                DataSpec::Text(chapter_xhtml_spec(chs[n - 1], css_path())),
                false,
            ),
        )
    }
}

/// The entries for the first `n` assets.
pub open spec fn asset_entries(
    assets: Seq<ManifestItem>,
    data: Map<Seq<char>, Seq<u8>>,
    n: int,
) -> Seq<(Seq<char>, DataSpec, bool)>
    decreases n,
{
    if n <= 0 {
        Seq::empty()
    } else {
        asset_entries(assets, data, n - 1).push(
            ("OEBPS/"@ + assets[n - 1].href@, DataSpec::Bytes(data[assets[n - 1].href@]), false),
        )
    }
}

/// The index of the first asset from `i` on whose bytes are missing.
pub open spec fn first_missing(assets: Seq<ManifestItem>, data: Map<Seq<char>, Seq<u8>>, i: int) -> Option<int>
    decreases assets.len() - i,
{
    if i < 0 || i >= assets.len() {
        None
    } else if !data.contains_key(assets[i].href@) {
        Some(i)
    } else {
        first_missing(assets, data, i + 1)
    }
}

/// The entries that come before the assets: the `mimetype`, stored first
/// as readers require, the container file, the style sheet, the chapters.
pub open spec fn head_entries(chs: Seq<Chapter>, code_font_size: Option<Seq<char>>) -> Seq<(Seq<char>, DataSpec, bool)> {
    seq![
        ("mimetype"@, DataSpec::Text("application/epub+zip"@), true),
        ("META-INF/container.xml"@, DataSpec::Text(container_xml_text()), false),
        ("OEBPS/"@ + css_path(), DataSpec::Text(epub_stylesheet_spec(code_font_size)), false),
    ] + chapter_entries(chs, chs.len() as int)
}

/// The entries of the EPUB, in order, and the error that stops the writing
/// if the bytes of an asset are missing: the head entries, the assets in
/// manifest order, the navigation document, the NCX and the package
/// document stamped with `modified`.
pub open spec fn epub_plan_spec(
    meta: BookMetadata,
    chs: Seq<Chapter>,
    assets: Seq<ManifestItem>,
    data: Map<Seq<char>, Seq<u8>>,
    code_font_size: Option<Seq<char>>,
    modified: Seq<char>,
) -> (Seq<(Seq<char>, DataSpec, bool)>, Option<Seq<char>>) {
    match first_missing(assets, data, 0) {
        Some(k) => (
            head_entries(chs, code_font_size) + asset_entries(assets, data, k),
            Some("Missing bytes for asset "@ + assets[k].href@),
        ),
        None => (
            head_entries(chs, code_font_size) + asset_entries(assets, data, assets.len() as int) + seq![
                ("OEBPS/nav.xhtml"@, DataSpec::Text(nav_xhtml_spec(chs)), false),
                ("OEBPS/toc.ncx"@, DataSpec::Text(toc_ncx_spec(meta.title@, chs)), false),
                (
                    "OEBPS/content.opf"@,
                    DataSpec::Text(content_opf_spec(meta, chs, assets, css_path(), modified)),
                    false,
                ),
            ],
            None,
        ),
    }
}

/// What to write into the EPUB archive.
pub struct EpubPlan {
    /// The entries, in order.
    pub entries: Vec<ZipEntry>,
    /// Why the writing stops after these entries, if it does.
    pub error: Option<String>,
}

fn text_entry(name: &str, text: String, stored: bool) -> (e: ZipEntry)
    ensures
        entry_view(e) == (name@, DataSpec::Text(text@), stored),
{
    ZipEntry { name: name.to_owned(), data: ZipData::Text(text), stored }
}

fn oebps_name(path: &str) -> (r: String)
    ensures
        r@ == "OEBPS/"@ + path@,
{
    let mut v = chars_of("OEBPS/");
    push_str(&mut v, path);
    string_of(&v)
}

/// A code-block font size by its characters.
pub open spec fn size_view(size: Option<String>) -> Option<Seq<char>> {
    match size {
        Some(s) => Some(s@),
        None => None,
    }
}

/// The entries of the EPUB archive, in the order they are written; the
/// style sheet sets the font size of code blocks when one is given.
pub fn plan_epub(
    metadata: &BookMetadata,
    chapters: &[Chapter],
    assets: &[ManifestItem],
    asset_data: &AssetData,
    code_font_size: &Option<String>,
) -> (r: EpubPlan)
    ensures
        exists|modified: Seq<char>|
            rfc3339_shape(modified) && (entries_view(r.entries@), match r.error {
                Some(e) => Some(e@),
                None => None,
            }) == epub_plan_spec(
                *metadata,
                chapters@,
                assets@,
                asset_data@,
                size_view(*code_font_size),
                modified,
            ),
{
    let css = "styles/epub.css";
    let mut entries: Vec<ZipEntry> = Vec::new();
    entries.push(text_entry("mimetype", "application/epub+zip".to_owned(), true));
    entries.push(text_entry("META-INF/container.xml", container_xml().to_owned(), false));
    let css_name = oebps_name(css);
    entries.push(
        ZipEntry { name: css_name, data: ZipData::Text(epub_stylesheet(code_font_size)), stored: false },
    );
    let mut i: usize = 0;
    while i < chapters.len()
        invariant
            i <= chapters@.len(),
            css@ == css_path(),
            entries_view(entries@) == seq![
                ("mimetype"@, DataSpec::Text("application/epub+zip"@), true),
                ("META-INF/container.xml"@, DataSpec::Text(container_xml_text()), false),
                ("OEBPS/"@ + css_path(), DataSpec::Text(epub_stylesheet_spec(size_view(*code_font_size))), false),
            ] + chapter_entries(chapters@, i as int),
        decreases chapters.len() - i,
    {
        let ghost before = entries_view(entries@);
        let doc = chapter_xhtml(&chapters[i], assets, css);
        let name = oebps_name(chapters[i].xhtml_path.as_str());
        entries.push(ZipEntry { name, data: ZipData::Text(doc), stored: false });
        assert(entries_view(entries@) =~= before.push(entry_view(entries@.last())));
        i = i + 1;
    }
    let mut k: usize = 0;
    while k < assets.len()
        invariant
            k <= assets@.len(),
            css@ == css_path(),
            first_missing(assets@, asset_data@, 0) == first_missing(assets@, asset_data@, k as int),
            entries_view(entries@) == head_entries(chapters@, size_view(*code_font_size)) + asset_entries(
                assets@,
                asset_data@,
                k as int,
            ),
        decreases assets.len() - k,
    {
        let ghost before = entries_view(entries@);
        match asset_data.get(assets[k].href.as_str()) {
            None => {
                let mut msg = chars_of("Missing bytes for asset ");
                push_str(&mut msg, assets[k].href.as_str());
                let err = string_of(&msg);
                assert(first_missing(assets@, asset_data@, k as int) == Some(k as int));
                assert((entries_view(entries@), Some(err@)) == epub_plan_spec(
                    *metadata,
                    chapters@,
                    assets@,
                    asset_data@,
                    size_view(*code_font_size),
                    "1970-01-01T00:00:00Z"@,
                ));
                proof {
                    reveal_strlit("1970-01-01T00:00:00Z");
                    assert(rfc3339_shape("1970-01-01T00:00:00Z"@));
                }
                return EpubPlan { entries, error: Some(err) };
            },
            Some(bytes) => {
                let name = oebps_name(assets[k].href.as_str());
                entries.push(ZipEntry { name, data: ZipData::Bytes(bytes.clone()), stored: false });
                assert(entries_view(entries@) =~= before.push(entry_view(entries@.last())));
            },
        }
        k = k + 1;
    }
    let ghost before = entries_view(entries@);
    entries.push(text_entry("OEBPS/nav.xhtml", nav_xhtml(chapters), false));
    entries.push(text_entry("OEBPS/toc.ncx", toc_ncx(metadata, chapters), false));
    let modified = crate::epub::modification_time();
    let opf = content_opf_at(metadata, chapters, assets, css, modified.as_str());
    entries.push(text_entry("OEBPS/content.opf", opf, false));
    assert(entries_view(entries@) =~= before + seq![
        ("OEBPS/nav.xhtml"@, DataSpec::Text(nav_xhtml_spec(chapters@)), false),
        ("OEBPS/toc.ncx"@, DataSpec::Text(toc_ncx_spec(metadata.title@, chapters@)), false),
        (
            "OEBPS/content.opf"@,
            DataSpec::Text(content_opf_spec(*metadata, chapters@, assets@, css_path(), modified@)),
            false,
        ),
    ]);
    assert(first_missing(assets@, asset_data@, k as int) is None);
    assert((entries_view(entries@), None::<Seq<char>>) == epub_plan_spec(
        *metadata,
        chapters@,
        assets@,
        asset_data@,
        size_view(*code_font_size),
        modified@,
    ));
    EpubPlan { entries, error: None }
}

/// The messages for a failure to start and to fill the entry at position
/// `index` of the archive that `plan_epub` writes for `chs` and `assets`.
pub open spec fn entry_messages_spec(index: nat, chs: Seq<Chapter>, assets: Seq<ManifestItem>) -> (Seq<char>, Seq<char>) {
    let first_asset = 3 + chs.len();
    let after_assets = first_asset + assets.len();
    if index == 0 {
        ("Failed to write mimetype"@, "Failed to write mimetype bytes"@)
    } else if index == 1 {
        ("Failed to write container.xml entry"@, "Failed writing container.xml"@)
    } else if index == 2 {
        ("Failed to write css entry"@, "Failed writing css"@)
    } else if index < first_asset {
        let p = chs[index - 3].xhtml_path@;
        ("Failed to write chapter entry "@ + p, "Failed writing chapter "@ + p)
    } else if index < after_assets {
        let h = assets[index - first_asset].href@;
        ("Failed to write asset entry "@ + h, "Failed writing asset "@ + h)
    } else if index == after_assets {
        ("Failed to write nav.xhtml entry"@, "Failed writing nav.xhtml"@)
    } else if index == after_assets + 1 {
        ("Failed to write toc.ncx entry"@, "Failed writing toc.ncx"@)
    } else {
        ("Failed to write content.opf entry"@, "Failed writing content.opf"@)
    }
}

fn message_with(prefix: &str, tail: &str) -> (r: String)
    ensures
        r@ == prefix@ + tail@,
{
    let mut v = chars_of(prefix);
    push_str(&mut v, tail);
    string_of(&v)
}

/// The messages for a failure to start and to fill the entry at position
/// `index` of the archive that `plan_epub` writes for `chapters` and
/// `assets` (the error's own text follows them).
pub fn entry_messages(index: usize, chapters: &[Chapter], assets: &[ManifestItem]) -> (r: (String, String))
    requires
        chapters@.len() + assets@.len() + 6 <= usize::MAX,
    ensures
        (r.0@, r.1@) == entry_messages_spec(index as nat, chapters@, assets@),
{
    let first_asset = 3 + chapters.len();
    let after_assets = first_asset + assets.len();
    if index == 0 {
        ("Failed to write mimetype".to_owned(), "Failed to write mimetype bytes".to_owned())
    } else if index == 1 {
        ("Failed to write container.xml entry".to_owned(), "Failed writing container.xml".to_owned())
    } else if index == 2 {
        ("Failed to write css entry".to_owned(), "Failed writing css".to_owned())
    } else if index < first_asset {
        let p = chapters[index - 3].xhtml_path.as_str();
        (message_with("Failed to write chapter entry ", p), message_with("Failed writing chapter ", p))
    } else if index < after_assets {
        let h = assets[index - first_asset].href.as_str();
        (message_with("Failed to write asset entry ", h), message_with("Failed writing asset ", h))
    } else if index == after_assets {
        ("Failed to write nav.xhtml entry".to_owned(), "Failed writing nav.xhtml".to_owned())
    } else if index == after_assets + 1 {
        ("Failed to write toc.ncx entry".to_owned(), "Failed writing toc.ncx".to_owned())
    } else {
        ("Failed to write content.opf entry".to_owned(), "Failed writing content.opf".to_owned())
    }
}

/// The entries that every EPUB of the book must hold.
pub open spec fn required_entries() -> Seq<Seq<char>> {
    seq![
        "mimetype"@,
        "META-INF/container.xml"@,
        "OEBPS/content.opf"@,
        "OEBPS/toc.ncx"@,
        "OEBPS/nav.xhtml"@,
        "OEBPS/styles/epub.css"@,
    ]
}

pub open spec fn names_view(names: Seq<String>) -> Seq<Seq<char>> {
    names.map_values(|s: String| s@)
}

/// The first required entry, from index `i` of the list on, that `names` lacks.
pub open spec fn first_absent(names: Seq<Seq<char>>, i: int) -> Option<Seq<char>>
    decreases required_entries().len() - i,
{
    if i < 0 || i >= required_entries().len() {
        None
    } else if !names.contains(required_entries()[i]) {
        Some(required_entries()[i])
    } else {
        first_absent(names, i + 1)
    }
}

fn names_contain(names: &Vec<String>, name: &str) -> (r: bool)
    ensures
        r == names_view(names@).contains(name@),
{
    let k = name.to_owned();
    let mut i: usize = 0;
    while i < names.len()
        invariant
            i <= names.len(),
            k@ == name@,
            forall|j: int| 0 <= j < i ==> names@[j]@ != name@,
        decreases names.len() - i,
    {
        if names[i] == k {
            assert(names_view(names@)[i as int] == name@);
            return true;
        }
        i = i + 1;
    }
    assert forall|j: int| 0 <= j < names_view(names@).len() implies names_view(names@)[j] != name@ by {
        assert(names_view(names@)[j] == names@[j]@);
    }
    false
}

/// The names of a list of entries.
pub open spec fn entry_names(entries: Seq<(Seq<char>, DataSpec, bool)>) -> Seq<Seq<char>> {
    entries.map_values(|e: (Seq<char>, DataSpec, bool)| e.0)
}

proof fn lemma_first_absent_none(names: Seq<Seq<char>>, i: int)
    requires
        0 <= i <= required_entries().len(),
        forall|k: int| i <= k < required_entries().len() ==> names.contains(#[trigger] required_entries()[k]),
    ensures
        first_absent(names, i) is None,
    decreases required_entries().len() - i,
{
    if i < required_entries().len() {
        lemma_first_absent_none(names, i + 1);
    }
}

/// An EPUB written in full passes the checks of the validator: it holds
/// every required entry; its first entry is the `mimetype`, stored
/// uncompressed, and what that entry holds is accepted by `check_mimetype`.
pub proof fn written_epub_passes_validation(
    meta: BookMetadata,
    chs: Seq<Chapter>,
    assets: Seq<ManifestItem>,
    data: Map<Seq<char>, Seq<u8>>,
    code_font_size: Option<Seq<char>>,
    modified: Seq<char>,
)
    requires
        first_missing(assets, data, 0) is None,
    ensures
        epub_plan_spec(meta, chs, assets, data, code_font_size, modified).1 is None,
        first_absent(entry_names(epub_plan_spec(meta, chs, assets, data, code_font_size, modified).0), 0) is None,
        epub_plan_spec(meta, chs, assets, data, code_font_size, modified).0[0] == (
            "mimetype"@,
            DataSpec::Text("application/epub+zip"@),
            true,
        ),
        trim("application/epub+zip"@) == "application/epub+zip"@,
{
    let entries = epub_plan_spec(meta, chs, assets, data, code_font_size, modified).0;
    let names = entry_names(entries);
    let n = entries.len();
    let head = head_entries(chs, code_font_size);
    let body = head + asset_entries(assets, data, assets.len() as int);
    assert(entries[0] == head[0]);
    assert(entries[1] == head[1]);
    assert(entries[2] == head[2]);
    assert(n >= 6);
    assert(entries[n - 3].0 == "OEBPS/nav.xhtml"@);
    assert(entries[n - 2].0 == "OEBPS/toc.ncx"@);
    assert(entries[n - 1].0 == "OEBPS/content.opf"@);
    reveal_strlit("OEBPS/");
    reveal_strlit("styles/epub.css");
    reveal_strlit("OEBPS/styles/epub.css");
    assert("OEBPS/"@ + css_path() =~= "OEBPS/styles/epub.css"@);
    assert(names[0] == required_entries()[0]);
    assert(names[1] == required_entries()[1]);
    assert(names[n - 1] == required_entries()[2]);
    assert(names[n - 2] == required_entries()[3]);
    assert(names[n - 3] == required_entries()[4]);
    assert(names[2] == required_entries()[5]);
    lemma_first_absent_none(names, 0);
    reveal_strlit("application/epub+zip");
    let m = "application/epub+zip"@;
    assert(ws_run(m, 0) == 0);
    assert(trim_start(m) =~= m);
    assert(ws_run_back(m, m.len() as int) == 0);
    assert(trim_end(m) =~= m);
}

proof fn lemma_chapter_entries(chs: Seq<Chapter>, n: int)
    requires
        0 <= n <= chs.len(),
    ensures
        chapter_entries(chs, n).len() == n,
        forall|k: int|
            0 <= k < n ==> (#[trigger] chapter_entries(chs, n)[k]).0 == "OEBPS/"@ + chs[k].xhtml_path@,
        forall|k: int|
            0 <= k < n ==> #[trigger] chapter_entries(chs, n)[k] == (
                "OEBPS/"@ + chs[k].xhtml_path@,
                DataSpec::Text(chapter_xhtml_spec(chs[k], css_path())),
                false,
            ),
    decreases n,
{
    if n > 0 {
        lemma_chapter_entries(chs, n - 1);
    }
}

proof fn lemma_asset_entries(assets: Seq<ManifestItem>, data: Map<Seq<char>, Seq<u8>>, n: int)
    requires
        0 <= n <= assets.len(),
    ensures
        asset_entries(assets, data, n).len() == n,
        forall|k: int|
            0 <= k < n ==> (#[trigger] asset_entries(assets, data, n)[k]).0 == "OEBPS/"@ + assets[k].href@,
        forall|k: int|
            0 <= k < n ==> #[trigger] asset_entries(assets, data, n)[k] == (
                "OEBPS/"@ + assets[k].href@,
                DataSpec::Bytes(data[assets[k].href@]),
                false,
            ),
    decreases n,
{
    if n > 0 {
        lemma_asset_entries(assets, data, n - 1);
    }
}

proof fn lemma_first_missing(assets: Seq<ManifestItem>, data: Map<Seq<char>, Seq<u8>>, i: int)
    requires
        0 <= i <= assets.len(),
    ensures
        first_missing(assets, data, i) is None <==> forall|j: int|
            i <= j < assets.len() ==> data.contains_key(#[trigger] assets[j].href@),
        first_missing(assets, data, i) matches Some(k) ==> i <= k < assets.len() && !data.contains_key(
            assets[k].href@,
        ),
    decreases assets.len() - i,
{
    if i < assets.len() {
        lemma_first_missing(assets, data, i + 1);
    }
}

/// Every chapter is written, in reading order, right after the `mimetype`,
/// the container file and the style sheet; then every asset, in manifest
/// order, as far as their bytes go; with the bytes of all of them, the
/// navigation document, the NCX and the package document close the archive.
pub proof fn plan_writes_every_chapter_and_asset(
    meta: BookMetadata,
    chs: Seq<Chapter>,
    assets: Seq<ManifestItem>,
    data: Map<Seq<char>, Seq<u8>>,
    code_font_size: Option<Seq<char>>,
    modified: Seq<char>,
)
    ensures
        forall|k: int|
            0 <= k < chs.len() ==> epub_plan_spec(meta, chs, assets, data, code_font_size, modified).0[3 + k]
                == ("OEBPS/"@ + (#[trigger] chs[k]).xhtml_path@, DataSpec::Text(
                chapter_xhtml_spec(chs[k], "styles/epub.css"@),
            ), false),
        forall|j: int|
            0 <= j < assets.len() && (forall|i: int| 0 <= i <= j ==> data.contains_key(#[trigger] assets[i].href@))
                ==> epub_plan_spec(meta, chs, assets, data, code_font_size, modified).0[3 + chs.len() + j]
                == ("OEBPS/"@ + (#[trigger] assets[j]).href@, DataSpec::Bytes(data[assets[j].href@]), false),
        (forall|i: int| 0 <= i < assets.len() ==> data.contains_key(#[trigger] assets[i].href@)) ==> {
            &&& epub_plan_spec(meta, chs, assets, data, code_font_size, modified).1 is None
            &&& epub_plan_spec(meta, chs, assets, data, code_font_size, modified).0.len() == 6 + chs.len()
                + assets.len()
        },
{
    let plan = epub_plan_spec(meta, chs, assets, data, code_font_size, modified);
    let e = plan.0;
    let head = head_entries(chs, code_font_size);
    lemma_chapter_entries(chs, chs.len() as int);
    lemma_first_missing(assets, data, 0);
    let m: int = match first_missing(assets, data, 0) {
        Some(k) => k,
        None => assets.len() as int,
    };
    lemma_asset_entries(assets, data, m);
    assert(e.len() >= head.len() + m);
    assert forall|k: int| 0 <= k < chs.len() implies e[3 + k] == ("OEBPS/"@ + (#[trigger] chs[k]).xhtml_path@, DataSpec::Text(
        chapter_xhtml_spec(chs[k], "styles/epub.css"@),
    ), false) by {
        assert(e[3 + k] == head[3 + k]);
        assert(head[3 + k] == chapter_entries(chs, chs.len() as int)[k]);
    }
    assert forall|j: int|
        0 <= j < assets.len() && (forall|i: int| 0 <= i <= j ==> data.contains_key(#[trigger] assets[i].href@))
            implies e[3 + chs.len() + j] == ("OEBPS/"@ + (#[trigger] assets[j]).href@, DataSpec::Bytes(
            data[assets[j].href@],
        ), false) by {
        if j >= m {
            assert(data.contains_key(assets[m].href@));
        }
        assert(e[3 + chs.len() + j] == asset_entries(assets, data, m)[j]);
    }
}

proof fn lemma_chapter_count_positive(names: Seq<Seq<char>>, n: int, k: int)
    requires
        0 <= k < n,
        is_chapter_entry(names[k]),
    ensures
        count_chapter_entries(names, n) > 0,
    decreases n,
{
    if k < n - 1 {
        lemma_chapter_count_positive(names, n - 1, k);
    }
}

proof fn lemma_image_count_positive(names: Seq<Seq<char>>, n: int, k: int)
    requires
        0 <= k < n,
        is_image_entry(names[k]),
    ensures
        count_image_entries(names, n) > 0,
    decreases n,
{
    if k < n - 1 {
        lemma_image_count_positive(names, n - 1, k);
    }
}

/// What the EPUB writer writes in full passes every check of the validator,
/// when there is a chapter, every chapter lies under `chapters/` with the
/// `.xhtml` extension, and some asset under `book/` is an image: every
/// required entry is there, the archive counts at least one chapter and at
/// least one image, and its `mimetype` entry is accepted.
pub proof fn written_epub_is_valid(
    meta: BookMetadata,
    chs: Seq<Chapter>,
    assets: Seq<ManifestItem>,
    data: Map<Seq<char>, Seq<u8>>,
    code_font_size: Option<Seq<char>>,
    modified: Seq<char>,
)
    requires
        first_missing(assets, data, 0) is None,
        chs.len() > 0,
        forall|k: int|
            0 <= k < chs.len() ==> starts_with((#[trigger] chs[k]).xhtml_path@, "chapters/"@) && ends_with(
                chs[k].xhtml_path@,
                ".xhtml"@,
            ),
        exists|j: int|
            0 <= j < assets.len() && starts_with((#[trigger] assets[j]).href@, "book/"@) && starts_with(
                media_type_spec(assets[j].href@),
                "image/"@,
            ),
    ensures
        epub_plan_spec(meta, chs, assets, data, code_font_size, modified).1 is None,
        first_absent(entry_names(epub_plan_spec(meta, chs, assets, data, code_font_size, modified).0), 0) is None,
        count_chapter_entries(
            entry_names(epub_plan_spec(meta, chs, assets, data, code_font_size, modified).0),
            epub_plan_spec(meta, chs, assets, data, code_font_size, modified).0.len() as int,
        ) > 0,
        count_image_entries(
            entry_names(epub_plan_spec(meta, chs, assets, data, code_font_size, modified).0),
            epub_plan_spec(meta, chs, assets, data, code_font_size, modified).0.len() as int,
        ) > 0,
        trim("application/epub+zip"@) == "application/epub+zip"@,
{
    written_epub_passes_validation(meta, chs, assets, data, code_font_size, modified);
    let entries = epub_plan_spec(meta, chs, assets, data, code_font_size, modified).0;
    let names = entry_names(entries);
    let n = entries.len() as int;
    lemma_chapter_entries(chs, chs.len() as int);
    lemma_asset_entries(assets, data, assets.len() as int);
    let head = head_entries(chs, code_font_size);
    assert(head.len() == 3 + chs.len());
    reveal_strlit("OEBPS/");
    reveal_strlit("chapters/");
    reveal_strlit("OEBPS/chapters/");
    reveal_strlit("book/");
    reveal_strlit("OEBPS/book/");
    // the first chapter
    let p = chs[0].xhtml_path@;
    assert(entries[3] == head[3]);
    assert(head[3] == chapter_entries(chs, chs.len() as int)[0]);
    assert(names[3] == "OEBPS/"@ + p);
    assert(("OEBPS/"@ + p).subrange(0, 15) =~= "OEBPS/chapters/"@) by {
        reveal_strlit("OEBPS/");
        reveal_strlit("chapters/");
        reveal_strlit("OEBPS/chapters/");
        assert(p.subrange(0, 9) == "chapters/"@);
        assert forall|i: int| 0 <= i < 15 implies ("OEBPS/"@ + p)[i] == "OEBPS/chapters/"@[i] by {
            if i >= 6 {
                assert(("OEBPS/"@ + p)[i] == p[i - 6]);
                assert(p[i - 6] == p.subrange(0, 9)[i - 6]);
            }
        }
    }
    assert(("OEBPS/"@ + p).subrange(("OEBPS/"@ + p).len() - ".xhtml"@.len(), ("OEBPS/"@ + p).len() as int)
        =~= p.subrange(p.len() - ".xhtml"@.len(), p.len() as int));
    assert(is_chapter_entry(names[3]));
    lemma_chapter_count_positive(names, n, 3);
    // an image asset
    let j = choose|j: int|
        0 <= j < assets.len() && starts_with((#[trigger] assets[j]).href@, "book/"@) && starts_with(
            media_type_spec(assets[j].href@),
            "image/"@,
        );
    let h = assets[j].href@;
    let ix = 3 + chs.len() + j;
    assert(entries[ix] == asset_entries(assets, data, assets.len() as int)[j]);
    assert(names[ix] == "OEBPS/"@ + h);
    assert(("OEBPS/"@ + h).subrange(0, 11) =~= "OEBPS/book/"@) by {
        reveal_strlit("OEBPS/");
        reveal_strlit("book/");
        reveal_strlit("OEBPS/book/");
        assert(h.subrange(0, 5) == "book/"@);
        assert forall|i: int| 0 <= i < 11 implies ("OEBPS/"@ + h)[i] == "OEBPS/book/"@[i] by {
            if i >= 6 {
                assert(("OEBPS/"@ + h)[i] == h[i - 6]);
                assert(h[i - 6] == h.subrange(0, 5)[i - 6]);
            }
        }
    }
    lemma_image_media_type_prefix("OEBPS/"@, h);
    assert(is_image_entry(names[ix]));
    lemma_image_count_positive(names, n, ix);
}

/// `names` holds each of the six entries that an EPUB of the book needs:
/// `mimetype`, `META-INF/container.xml`, `OEBPS/content.opf`,
/// `OEBPS/toc.ncx`, `OEBPS/nav.xhtml` and `OEBPS/styles/epub.css`.
pub open spec fn holds_every_required_entry(names: Seq<Seq<char>>) -> bool {
    &&& names.contains("mimetype"@)
    &&& names.contains("META-INF/container.xml"@)
    &&& names.contains("OEBPS/content.opf"@)
    &&& names.contains("OEBPS/toc.ncx"@)
    &&& names.contains("OEBPS/nav.xhtml"@)
    &&& names.contains("OEBPS/styles/epub.css"@)
}

/// A required entry is reported missing exactly when one of the six, the
/// style sheet `OEBPS/styles/epub.css` included, is not among the names.
pub proof fn missing_required_entry_is_reported(names: Seq<Seq<char>>)
    ensures
        first_absent(names, 0) is None <==> holds_every_required_entry(names),
{
    assert(first_absent(names, 6) is None);
    assert(first_absent(names, 5) == (if names.contains("OEBPS/styles/epub.css"@) {
        None
    } else {
        Some("OEBPS/styles/epub.css"@)
    }));
    assert(first_absent(names, 4) is None <==> (names.contains("OEBPS/nav.xhtml"@)
        && first_absent(names, 5) is None));
    assert(first_absent(names, 3) is None <==> (names.contains("OEBPS/toc.ncx"@)
        && first_absent(names, 4) is None));
    assert(first_absent(names, 2) is None <==> (names.contains("OEBPS/content.opf"@)
        && first_absent(names, 3) is None));
    assert(first_absent(names, 1) is None <==> (names.contains("META-INF/container.xml"@)
        && first_absent(names, 2) is None));
    assert(first_absent(names, 0) is None <==> (names.contains("mimetype"@)
        && first_absent(names, 1) is None));
}

/// Checks that an archive with these entry names holds every entry that an
/// EPUB of the book needs; the first missing one is reported.
pub fn check_required_entries(names: &Vec<String>) -> (r: Result<(), String>)
    ensures
        r is Ok <==> holds_every_required_entry(names_view(names@)),
        r is Ok <==> first_absent(names_view(names@), 0) is None,
        r matches Err(e) ==> e@ == "Missing required EPUB entry: "@ + first_absent(
            names_view(names@),
            0,
        )->0,
{
    let required = [
        "mimetype",
        "META-INF/container.xml",
        "OEBPS/content.opf",
        "OEBPS/toc.ncx",
        "OEBPS/nav.xhtml",
        "OEBPS/styles/epub.css",
    ];
    let ghost nv = names_view(names@);
    let mut i: usize = 0;
    while i < 6
        invariant
            i <= 6,
            nv == names_view(names@),
            required@.len() == 6,
            forall|j: int| 0 <= j < 6 ==> (#[trigger] required@[j])@ == required_entries()[j],
            first_absent(nv, 0) == first_absent(nv, i as int),
        decreases 6 - i,
    {
        let req = required[i];
        if !names_contain(names, req) {
            let mut msg = chars_of("Missing required EPUB entry: ");
            push_str(&mut msg, req);
            proof {
                missing_required_entry_is_reported(nv);
            }
            return Err(string_of(&msg));
        }
        i = i + 1;
    }
    proof {
        missing_required_entry_is_reported(nv);
    }
    Ok(())
}

/// A chapter entry: under `OEBPS/chapters/`, ending in `.xhtml`.
pub open spec fn is_chapter_entry(name: Seq<char>) -> bool {
    starts_with(name, "OEBPS/chapters/"@) && ends_with(name, ".xhtml"@)
}

/// An image entry: under `OEBPS/book/`, with an `image/` media type.
pub open spec fn is_image_entry(name: Seq<char>) -> bool {
    starts_with(name, "OEBPS/book/"@) && starts_with(media_type_spec(name), "image/"@)
}

pub open spec fn count_chapter_entries(names: Seq<Seq<char>>, n: int) -> nat
    decreases n,
{
    if n <= 0 {
        0
    } else {
        count_chapter_entries(names, n - 1) + if is_chapter_entry(names[n - 1]) {
            1nat
        } else {
            0nat
        }
    }
}

pub open spec fn count_image_entries(names: Seq<Seq<char>>, n: int) -> nat
    decreases n,
{
    if n <= 0 {
        0
    } else {
        count_image_entries(names, n - 1) + if is_image_entry(names[n - 1]) {
            1nat
        } else {
            0nat
        }
    }
}

fn starts_with_lit(v: &Vec<char>, lit: &str) -> (b: bool)
    ensures
        b == starts_with(v@, lit@),
{
    let l = chars_of(lit);
    vec_starts_with(v, &l)
}

proof fn lemma_counts_positive(names: Seq<Seq<char>>, n: int)
    requires
        0 <= n <= names.len(),
    ensures
        count_chapter_entries(names, n) > 0 <==> exists|k: int| 0 <= k < n && is_chapter_entry(
            #[trigger] names[k],
        ),
        count_image_entries(names, n) > 0 <==> exists|k: int| 0 <= k < n && is_image_entry(
            #[trigger] names[k],
        ),
    decreases n,
{
    if n > 0 {
        lemma_counts_positive(names, n - 1);
        if is_chapter_entry(names[n - 1]) {
            assert(exists|k: int| 0 <= k < n && is_chapter_entry(#[trigger] names[k]));
        }
        if is_image_entry(names[n - 1]) {
            assert(exists|k: int| 0 <= k < n && is_image_entry(#[trigger] names[k]));
        }
    }
}

/// Every entry name counts: the archive holds a chapter (an image) by the
/// count exactly when some name, wherever it stands in the list, is a
/// chapter (an image) entry.
pub proof fn entry_counts_see_every_name(names: Seq<Seq<char>>)
    ensures
        count_chapter_entries(names, names.len() as int) > 0 <==> exists|k: int|
            0 <= k < names.len() && is_chapter_entry(#[trigger] names[k]),
        count_image_entries(names, names.len() as int) > 0 <==> exists|k: int|
            0 <= k < names.len() && is_image_entry(#[trigger] names[k]),
{
    lemma_counts_positive(names, names.len() as int);
}

/// Checks that an archive with these entry names holds at least one chapter
/// and at least one image of the book.
pub fn check_entry_counts(names: &Vec<String>) -> (r: Result<(), String>)
    ensures
        r is Ok <==> (exists|k: int| 0 <= k < names@.len() && is_chapter_entry(#[trigger] names@[k]@))
            && (exists|k: int| 0 <= k < names@.len() && is_image_entry(#[trigger] names@[k]@)),
        r is Ok <==> count_chapter_entries(names_view(names@), names@.len() as int) > 0
            && count_image_entries(names_view(names@), names@.len() as int) > 0,
        r matches Err(e) ==> if count_chapter_entries(names_view(names@), names@.len() as int) == 0 {
            e@ == "EPUB has no chapter XHTML files in OEBPS/chapters"@
        } else {
            e@ == "EPUB has no bundled images under OEBPS/book"@
        },
{
    let ghost nv = names_view(names@);
    let mut chapters: usize = 0;
    let mut images: usize = 0;
    let mut i: usize = 0;
    while i < names.len()
        invariant
            i <= names@.len(),
            nv == names_view(names@),
            chapters == count_chapter_entries(nv, i as int),
            images == count_image_entries(nv, i as int),
            chapters <= i,
            images <= i,
        decreases names.len() - i,
    {
        let name = chars_of(names[i].as_str());
        assert(name@ == nv[i as int]);
        let xhtml = chars_of(".xhtml");
        if starts_with_lit(&name, "OEBPS/chapters/") && vec_ends_with(&name, &xhtml) {
            chapters = chapters + 1;
        }
        if starts_with_lit(&name, "OEBPS/book/") {
            let mt = chars_of(media_type_for_path(names[i].as_str()));
            if starts_with_lit(&mt, "image/") {
                images = images + 1;
            }
        }
        i = i + 1;
    }
    proof {
        entry_counts_see_every_name(nv);
        assert forall|k: int| 0 <= k < names@.len() implies #[trigger] nv[k] == names@[k]@ by {}
        if exists|k: int| 0 <= k < names@.len() && is_chapter_entry(#[trigger] names@[k]@) {
            let k = choose|k: int| 0 <= k < names@.len() && is_chapter_entry(#[trigger] names@[k]@);
            assert(is_chapter_entry(nv[k]));
        }
        if exists|k: int| 0 <= k < names@.len() && is_image_entry(#[trigger] names@[k]@) {
            let k = choose|k: int| 0 <= k < names@.len() && is_image_entry(#[trigger] names@[k]@);
            assert(is_image_entry(nv[k]));
        }
        if exists|k: int| 0 <= k < nv.len() && is_chapter_entry(#[trigger] nv[k]) {
            let k = choose|k: int| 0 <= k < nv.len() && is_chapter_entry(#[trigger] nv[k]);
            assert(is_chapter_entry(names@[k]@));
        }
        if exists|k: int| 0 <= k < nv.len() && is_image_entry(#[trigger] nv[k]) {
            let k = choose|k: int| 0 <= k < nv.len() && is_image_entry(#[trigger] nv[k]);
            assert(is_image_entry(names@[k]@));
        }
    }
    if chapters == 0 {
        return Err("EPUB has no chapter XHTML files in OEBPS/chapters".to_owned());
    }
    if images == 0 {
        return Err("EPUB has no bundled images under OEBPS/book".to_owned());
    }
    Ok(())
}

/// Checks that the `mimetype` entry holds `application/epub+zip`, whitespace
/// around it aside.
pub fn check_mimetype(contents: &str) -> (r: Result<(), String>)
    ensures
        r is Ok <==> trim(contents@) == "application/epub+zip"@,
        r matches Err(e) ==> e@ == "mimetype entry does not contain application/epub+zip"@,
{
    let v = chars_of(contents);
    let t = vec_trim(&v);
    let expected = chars_of("application/epub+zip");
    if vec_eq(&t, &expected) {
        Ok(())
    } else {
        Err("mimetype entry does not contain application/epub+zip".to_owned())
    }
}

} // verus!
