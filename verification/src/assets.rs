//! Which files of the built book go into the EPUB as assets, under which
//! names and ids, and in which order their bytes are read and their SVG
//! images rendered to PNG.
//!
//! The files are taken in the order of the directory walk. Directories,
//! files without an extension, HTML pages and a file named `mimetype` are
//! left out. Each other file goes in under `book/` with the next id
//! `asset<n>`, `n` counting the names taken so far; an SVG image also gets
//! a PNG rendering beside it unless that name is taken already. The
//! manifest lists the assets ordered by name.

use vstd::prelude::*;
use crate::epub::ManifestItem;
use crate::naming::{
    ascii_lower, char_ascii_lower, decimal, decimal_chars, decimal_is_injective, media_type_for_path,
    media_type_spec,
};
use crate::text::{
    chars_of, push_all, push_str, string_of, trim_end_all, vec_eq, vec_trim_end_all,
};

verus! {

broadcast use vstd::seq_lib::group_to_multiset_ensures;

/// A file or directory met in the walk over the built book.
pub struct WalkedFile {
    /// Its path relative to the book directory, with `/` separators.
    pub rel: String,
    /// Its extension (`Path::extension`), if it has one.
    pub extension: Option<String>,
    /// Whether it is a directory.
    pub is_dir: bool,
}

/// A step of gathering the assets' bytes.
pub enum AssetStep {
    /// Read the file at this index of the walk; its bytes go in under `href`.
    Read { file: usize, href: String },
    /// Render the SVG image stored under `svg_href`, read from the file at
    /// index `file` of the walk, to PNG, stored under `png_href`.
    RenderPng { file: usize, svg_href: String, png_href: String },
}

/// A step, by the characters it holds.
pub enum StepSpec {
    Read(nat, Seq<char>),
    RenderPng(nat, Seq<char>, Seq<char>),
}

impl View for AssetStep {
    type V = StepSpec;

    open spec fn view(&self) -> StepSpec {
        match self {
            AssetStep::Read { file, href } => StepSpec::Read(*file as nat, href@),
            AssetStep::RenderPng { file, svg_href, png_href } => StepSpec::RenderPng(
                *file as nat,
                svg_href@,
                png_href@,
            ),
        }
    }
}

/// A manifest item by the characters it holds: id, href, media type.
pub open spec fn item_view(m: ManifestItem) -> (Seq<char>, Seq<char>, Seq<char>) {
    (m.id@, m.href@, m.media_type@)
}

/// The assets to put in the EPUB: the manifest items, ordered by name, and
/// the steps that gather their bytes, in order.
pub struct AssetPlan {
    pub items: Vec<ManifestItem>,
    pub steps: Vec<AssetStep>,
}

/// `str::eq_ignore_ascii_case`.
pub open spec fn eq_ignore_ascii_case(a: Seq<char>, b: Seq<char>) -> bool {
    a.len() == b.len() && forall|i: int| 0 <= i < a.len() ==> ascii_lower(a[i]) == ascii_lower(b[i])
}

/// The id of the asset that takes the `n`-th name: `asset<n>`.
pub open spec fn asset_id(n: nat) -> Seq<char> {
    "asset"@ + decimal(n)
}

/// The state of the planning after some files of the walk.
pub struct PlanState {
    /// The names taken, in order.
    pub seen: Seq<Seq<char>>,
    /// The manifest items, in the order they were made.
    pub items: Seq<(Seq<char>, Seq<char>, Seq<char>)>,
    /// The steps, in order.
    pub steps: Seq<StepSpec>,
}

/// What the file at index `k` of the walk adds to the plan.
pub open spec fn plan_step(st: PlanState, k: nat, f: WalkedFile) -> PlanState {
    if f.is_dir || f.extension is None || eq_ignore_ascii_case(f.extension->0@, "html"@) || f.rel@
        == "mimetype"@ {
        st
    } else {
        let href = "book/"@ + f.rel@;
        if st.seen.contains(href) {
            st
        } else {
            let seen1 = st.seen.push(href);
            let st1 = PlanState {
                seen: seen1,
                items: st.items.push((asset_id(seen1.len()), href, media_type_spec(href))),
                steps: st.steps.push(StepSpec::Read(k, href)),
            };
            if eq_ignore_ascii_case(f.extension->0@, "svg"@) {
                let png = "book/"@ + trim_end_all(f.rel@, ".svg"@) + ".png"@;
                if seen1.contains(png) {
                    st1
                } else {
                    let seen2 = seen1.push(png);
                    PlanState {
                        seen: seen2,
                        items: st1.items.push((asset_id(seen2.len()), png, "image/png"@)),
                        steps: st1.steps.push(StepSpec::RenderPng(k, href, png)),
                    }
                }
            } else {
                st1
            }
        }
    }
}

/// The plan after the first `n` files of the walk.
pub open spec fn plan_after(files: Seq<WalkedFile>, n: int) -> PlanState
    decreases n,
{
    if n <= 0 {
        PlanState { seen: Seq::empty(), items: Seq::empty(), steps: Seq::empty() }
    } else {
        plan_step(plan_after(files, n - 1), (n - 1) as nat, files[n - 1])
    }
}

/// No two items share a name.
pub open spec fn names_distinct(items: Seq<(Seq<char>, Seq<char>, Seq<char>)>) -> bool {
    forall|i: int, j: int| 0 <= i < j < items.len() ==> (#[trigger] items[i]).1 != (#[trigger] items[j]).1
}

/// The names, ids and steps of the plan after the first `n` files of the
/// walk: each name is taken once; the item at position `i` has the `i`-th
/// name taken and the id `asset<i + 1>`, so that no two items share an id
/// either; one step gathers each item's bytes, in the same order.
pub proof fn plan_names_are_distinct(files: Seq<WalkedFile>, n: int)
    requires
        0 <= n <= files.len(),
    ensures
        plan_after(files, n).items.len() == plan_after(files, n).seen.len(),
        plan_after(files, n).steps.len() == plan_after(files, n).items.len(),
        plan_after(files, n).seen.no_duplicates(),
        names_distinct(plan_after(files, n).items),
        forall|i: int, j: int|
            0 <= i < j < plan_after(files, n).items.len() ==> (#[trigger] plan_after(files, n).items[i]).0
                != (#[trigger] plan_after(files, n).items[j]).0,
        forall|i: int|
            0 <= i < plan_after(files, n).items.len() ==> (#[trigger] plan_after(files, n).items[i]).1
                == plan_after(files, n).seen[i] && plan_after(files, n).items[i].0 == asset_id(
                (i + 1) as nat,
            ),
    decreases n,
{
    if n > 0 {
        plan_names_are_distinct(files, n - 1);
    }
    let st = plan_after(files, n);
    assert forall|i: int, j: int| 0 <= i < j < st.items.len() implies (#[trigger] st.items[i]).1
        != (#[trigger] st.items[j]).1 by {
        assert(st.items[i].1 == st.seen[i]);
        assert(st.items[j].1 == st.seen[j]);
    }
    assert forall|i: int, j: int| 0 <= i < j < st.items.len() implies (#[trigger] st.items[i]).0
        != (#[trigger] st.items[j]).0 by {
        if st.items[i].0 == st.items[j].0 {
            assert(decimal((i + 1) as nat) =~= asset_id((i + 1) as nat).skip("asset"@.len() as int));
            assert(decimal((j + 1) as nat) =~= asset_id((j + 1) as nat).skip("asset"@.len() as int));
            decimal_is_injective((i + 1) as nat, (j + 1) as nat);
        }
    }
}

/// A file of the walk that the book's assets take: not a directory, with an
/// extension other than `html` (in any case), and not the `mimetype` file.
pub open spec fn is_asset_file(f: WalkedFile) -> bool {
    &&& !f.is_dir
    &&& f.extension is Some
    &&& !eq_ignore_ascii_case(f.extension->0@, "html"@)
    &&& f.rel@ != "mimetype"@
}

proof fn lemma_plan_keeps_names(files: Seq<WalkedFile>, m: int, n: int, x: Seq<char>)
    requires
        0 <= m <= n <= files.len(),
        plan_after(files, m).seen.contains(x),
    ensures
        plan_after(files, n).seen.contains(x),
    decreases n - m,
{
    if m < n {
        let st = plan_after(files, m);
        let st2 = plan_after(files, m + 1);
        assert(st2 == plan_step(st, m as nat, files[m]));
        let j = choose|j: int| 0 <= j < st.seen.len() && st.seen[j] == x;
        assert(st2.seen[j] == x);
        lemma_plan_keeps_names(files, m + 1, n, x);
    }
}

/// Every asset file of the walk is planned, not only the first: after the
/// first `n` files, the name `book/<path>` of each asset file among them
/// has been taken.
pub proof fn every_asset_file_is_planned(files: Seq<WalkedFile>, n: int, k: int)
    requires
        0 <= k < n <= files.len(),
        is_asset_file(files[k]),
    ensures
        plan_after(files, n).seen.contains("book/"@ + files[k].rel@),
{
    let href = "book/"@ + files[k].rel@;
    let st = plan_after(files, k);
    let st2 = plan_after(files, k + 1);
    assert(st2 == plan_step(st, k as nat, files[k]));
    if st.seen.contains(href) {
        let j = choose|j: int| 0 <= j < st.seen.len() && st.seen[j] == href;
        assert(st2.seen[j] == href);
    } else {
        assert(st2.seen[st.seen.len() as int] == href);
    }
    assert(st2.seen.contains(href));
    lemma_plan_keeps_names(files, k + 1, n, href);
}

/// `a` comes before `b` in the order of `String`: lexicographic by character.
pub open spec fn str_lt(a: Seq<char>, b: Seq<char>) -> bool
    decreases a.len(),
{
    if a.len() == 0 {
        b.len() > 0
    } else if b.len() == 0 {
        false
    } else if a[0] != b[0] {
        a[0] < b[0]
    } else {
        str_lt(a.drop_first(), b.drop_first())
    }
}

pub proof fn lemma_str_lt_transitive(a: Seq<char>, b: Seq<char>, c: Seq<char>)
    requires
        str_lt(a, b),
        str_lt(b, c),
    ensures
        str_lt(a, c),
    decreases a.len(),
{
    if a.len() > 0 && b.len() > 0 && c.len() > 0 && a[0] == b[0] && b[0] == c[0] {
        lemma_str_lt_transitive(a.drop_first(), b.drop_first(), c.drop_first());
    }
}

pub proof fn lemma_str_lt_total(a: Seq<char>, b: Seq<char>)
    ensures
        a == b || str_lt(a, b) || str_lt(b, a),
        !(str_lt(a, b) && str_lt(b, a)),
    decreases a.len(),
{
    if a.len() == 0 && b.len() == 0 {
        assert(a =~= b);
    }
    if a.len() > 0 && b.len() > 0 {
        lemma_str_lt_total(a.drop_first(), b.drop_first());
        if a[0] == b[0] && a.drop_first() == b.drop_first() {
            assert(a =~= seq![a[0]] + a.drop_first());
            assert(b =~= seq![b[0]] + b.drop_first());
        }
    }
}

pub proof fn lemma_str_lt_irreflexive(a: Seq<char>)
    ensures
        !str_lt(a, a),
    decreases a.len(),
{
    if a.len() > 0 {
        lemma_str_lt_irreflexive(a.drop_first());
    }
}

/// Whether `a` comes before `b` in the order of `String`.
pub fn chars_lt(a: &Vec<char>, b: &Vec<char>) -> (r: bool)
    ensures
        r == str_lt(a@, b@),
{
    let mut i: usize = 0;
    assert(a@.skip(0) =~= a@);
    assert(b@.skip(0) =~= b@);
    while i < a.len() && i < b.len() && a[i] == b[i]
        invariant
            i <= a.len(),
            i <= b.len(),
            str_lt(a@, b@) == str_lt(a@.skip(i as int), b@.skip(i as int)),
        decreases a.len() - i,
    {
        assert(a@.skip(i as int).drop_first() =~= a@.skip(i + 1));
        assert(b@.skip(i as int).drop_first() =~= b@.skip(i + 1));
        i = i + 1;
    }
    if i == a.len() {
        i < b.len()
    } else if i == b.len() {
        false
    } else {
        a[i] < b[i]
    }
}

/// Items ordered by name: no item has a name that comes before the name
/// of an item ahead of it.
pub open spec fn sorted_by_href(items: Seq<ManifestItem>) -> bool {
    forall|i: int, j: int| 0 <= i < j < items.len() ==> !str_lt(items[j].href@, items[i].href@)
}

fn href_lt(item: &ManifestItem, h: &Vec<char>) -> (r: bool)
    ensures
        r == str_lt(item.href@, h@),
{
    let ih = chars_of(item.href.as_str());
    chars_lt(&ih, h)
}

/// Orders manifest items by name (`sort_by` on `href`).
pub fn sort_by_href(items: Vec<ManifestItem>) -> (r: Vec<ManifestItem>)
    ensures
        sorted_by_href(r@),
        r@.to_multiset() == items@.to_multiset(),
{
    let mut rest = items;
    let ghost initial = rest@;
    let mut sorted: Vec<ManifestItem> = Vec::new();
    while rest.len() > 0
        invariant
            sorted_by_href(sorted@),
            sorted@.to_multiset().add(rest@.to_multiset()) == initial.to_multiset(),
        decreases rest.len(),
    {
        let ghost before_rest = rest@;
        let ghost before_sorted = sorted@;
        let x = rest.pop().unwrap();
        assert(before_rest =~= rest@.push(x));
        let xh = chars_of(x.href.as_str());
        let mut p: usize = 0;
        while p < sorted.len() && href_lt(&sorted[p], &xh)
            invariant
                p <= sorted@.len(),
                sorted@ == before_sorted,
                xh@ == x.href@,
                forall|i: int| 0 <= i < p ==> str_lt(#[trigger] sorted@[i].href@, x.href@),
            decreases sorted.len() - p,
        {
            p = p + 1;
        }
        proof {
            if p < sorted@.len() {
                assert(!str_lt(sorted@[p as int].href@, x.href@));
                assert forall|i: int| p <= i < sorted@.len() implies !str_lt(
                    #[trigger] sorted@[i].href@,
                    x.href@,
                ) by {
                    if i > p && str_lt(sorted@[i].href@, x.href@) {
                        lemma_str_lt_total(x.href@, sorted@[p as int].href@);
                        lemma_str_lt_total(sorted@[p as int].href@, sorted@[i].href@);
                        if x.href@ != sorted@[p as int].href@ {
                            lemma_str_lt_transitive(sorted@[i].href@, x.href@, sorted@[p as int].href@);
                        }
                    }
                }
            }
        }
        sorted.insert(p, x);
        proof {
            assert forall|i: int, j: int| 0 <= i < j < sorted@.len() implies !str_lt(
                sorted@[j].href@,
                sorted@[i].href@,
            ) by {
                if j == p {
                    assert(sorted@[i] == before_sorted[i]);
                    lemma_str_lt_total(sorted@[i].href@, x.href@);
                } else if i == p {
                    assert(sorted@[j] == before_sorted[j - 1]);
                } else {
                    let i0 = if i < p {
                        i
                    } else {
                        i - 1
                    };
                    let j0 = if j < p {
                        j
                    } else {
                        j - 1
                    };
                    assert(sorted@[i] == before_sorted[i0]);
                    assert(sorted@[j] == before_sorted[j0]);
                }
            }
            vstd::seq_lib::to_multiset_insert(before_sorted, p as int, x);
            assert(sorted@.to_multiset() == before_sorted.to_multiset().insert(x));
            assert(before_rest.to_multiset() == rest@.to_multiset().insert(x));
            assert(sorted@.to_multiset().add(rest@.to_multiset()) =~= before_sorted.to_multiset().add(
                before_rest.to_multiset(),
            ));
        }
    }
    assert(rest@.to_multiset() =~= vstd::multiset::Multiset::empty());
    assert(sorted@.to_multiset().add(rest@.to_multiset()) =~= sorted@.to_multiset());
    sorted
}

/// Whether one of `v` is the item `x`.
pub open spec fn has_item(v: Seq<ManifestItem>, x: (Seq<char>, Seq<char>, Seq<char>)) -> bool {
    exists|j: int| 0 <= j < v.len() && item_view(v[j]) == x
}

pub open spec fn strings_view(v: Seq<String>) -> Seq<Seq<char>> {
    v.map_values(|s: String| s@)
}

pub open spec fn items_view(v: Seq<ManifestItem>) -> Seq<(Seq<char>, Seq<char>, Seq<char>)> {
    v.map_values(|m: ManifestItem| item_view(m))
}

pub open spec fn steps_view(v: Seq<AssetStep>) -> Seq<StepSpec> {
    v.map_values(|s: AssetStep| s@)
}

fn eq_ignore_case_lit(a: &String, lit: &str) -> (r: bool)
    ensures
        r == eq_ignore_ascii_case(a@, lit@),
{
    let x = chars_of(a.as_str());
    let y = chars_of(lit);
    if x.len() != y.len() {
        return false;
    }
    let mut i: usize = 0;
    while i < x.len()
        invariant
            i <= x.len(),
            x.len() == y.len(),
            x@ == a@,
            y@ == lit@,
            forall|k: int| 0 <= k < i ==> ascii_lower(x@[k]) == ascii_lower(y@[k]),
        decreases x.len() - i,
    {
        if char_ascii_lower(x[i]) != char_ascii_lower(y[i]) {
            assert(ascii_lower(a@[i as int]) != ascii_lower(lit@[i as int]));
            return false;
        }
        i = i + 1;
    }
    true
}

fn strings_contain(v: &Vec<String>, h: &String) -> (r: bool)
    ensures
        r == strings_view(v@).contains(h@),
{
    let mut i: usize = 0;
    while i < v.len()
        invariant
            i <= v.len(),
            forall|k: int| 0 <= k < i ==> v@[k]@ != h@,
        decreases v.len() - i,
    {
        if v[i] == *h {
            assert(strings_view(v@)[i as int] == h@);
            return true;
        }
        i = i + 1;
    }
    assert forall|k: int| 0 <= k < strings_view(v@).len() implies strings_view(v@)[k] != h@ by {
        assert(strings_view(v@)[k] == v@[k]@);
    }
    false
}

fn str_of(v: &Vec<char>) -> (s: String)
    ensures
        s@ == v@,
{
    string_of(v)
}

/// Decides which files of the walk go into the EPUB, in which order their
/// bytes are gathered, and what the manifest lists for them (ordered by name).
pub fn plan_assets(files: &Vec<WalkedFile>) -> (r: AssetPlan)
    ensures
        steps_view(r.steps@) == plan_after(files@, files@.len() as int).steps,
        r.items@.len() == plan_after(files@, files@.len() as int).items.len(),
        sorted_by_href(r.items@),
        forall|i: int, j: int|
            0 <= i < j < r.items@.len() ==> (#[trigger] r.items@[i]).href@ != (#[trigger] r.items@[j]).href@
                && r.items@[i].id@ != r.items@[j].id@,
        forall|k: int|
            0 <= k < r.items@.len() ==> plan_after(files@, files@.len() as int).items.contains(
                item_view(#[trigger] r.items@[k]),
            ) && r.items@[k].properties is None,
        forall|k: int|
            0 <= k < plan_after(files@, files@.len() as int).items.len() ==> has_item(
                r.items@,
                #[trigger] plan_after(files@, files@.len() as int).items[k],
            ),
{
    let mut seen: Vec<String> = Vec::new();
    let mut items: Vec<ManifestItem> = Vec::new();
    let mut steps: Vec<AssetStep> = Vec::new();
    let mut k: usize = 0;
    while k < files.len()
        invariant
            k <= files@.len(),
            strings_view(seen@) == plan_after(files@, k as int).seen,
            items_view(items@) == plan_after(files@, k as int).items,
            steps_view(steps@) == plan_after(files@, k as int).steps,
            items@.len() <= seen@.len(),
            seen@.len() <= 2 * k,
            forall|i: int| 0 <= i < items@.len() ==> (#[trigger] items@[i]).properties is None,
        decreases files.len() - k,
    {
        let ghost st = plan_after(files@, k as int);
        let f = &files[k];
        let skip = f.is_dir || match &f.extension {
            None => true,
            Some(e) => eq_ignore_case_lit(e, "html"),
        } || f.rel == "mimetype".to_owned();
        if !skip {
            let ext = match &f.extension {
                Some(e) => e,
                None => {
                    assert(false);
                    return AssetPlan { items: Vec::new(), steps: Vec::new() };
                },
            };
            let rel = chars_of(f.rel.as_str());
            let mut href_v = chars_of("book/");
            push_all(&mut href_v, &rel);
            let href = str_of(&href_v);
            if !strings_contain(&seen, &href) {
                let ghost seen0 = seen@;
                seen.push(str_of(&href_v));
                let mut id = chars_of("asset");
                let n = decimal_chars(seen.len());
                push_all(&mut id, &n);
                let media_type = media_type_for_path(href.as_str()).to_owned();
                let ghost items0 = items@;
                let ghost steps0 = steps@;
                items.push(
                    ManifestItem {
                        id: str_of(&id),
                        href: str_of(&href_v),
                        media_type,
                        properties: None,
                    },
                );
                steps.push(AssetStep::Read { file: k, href: str_of(&href_v) });
                assert(strings_view(seen@) =~= strings_view(seen0).push(href@));
                assert(items_view(items@) =~= items_view(items0).push(item_view(items@.last())));
                assert(steps_view(steps@) =~= steps_view(steps0).push(steps@.last()@));
                if eq_ignore_case_lit(ext, "svg") {
                    let svg = chars_of(".svg");
                    let mut png_v = chars_of("book/");
                    let stem = vec_trim_end_all(&rel, &svg);
                    push_all(&mut png_v, &stem);
                    push_str(&mut png_v, ".png");
                    let png = str_of(&png_v);
                    if !strings_contain(&seen, &png) {
                        let ghost seen1 = seen@;
                        let ghost items1 = items@;
                        let ghost steps1 = steps@;
                        seen.push(str_of(&png_v));
                        let mut id2 = chars_of("asset");
                        let n2 = decimal_chars(seen.len());
                        push_all(&mut id2, &n2);
                        items.push(
                            ManifestItem {
                                id: str_of(&id2),
                                href: str_of(&png_v),
                                media_type: "image/png".to_owned(),
                                properties: None,
                            },
                        );
                        steps.push(AssetStep::RenderPng { file: k, svg_href: href, png_href: png });
                        assert(strings_view(seen@) =~= strings_view(seen1).push(png_v@));
                        assert(items_view(items@) =~= items_view(items1).push(item_view(items@.last())));
                        assert(steps_view(steps@) =~= steps_view(steps1).push(steps@.last()@));
                    }
                }
            }
        }
        k = k + 1;
    }
    let ghost unsorted = items@;
    let sorted = sort_by_href(items);
    proof {
        assert forall|k: int| 0 <= k < sorted@.len() implies plan_after(
            files@,
            files@.len() as int,
        ).items.contains(item_view(#[trigger] sorted@[k])) && sorted@[k].properties is None by {
            assert(sorted@.to_multiset().count(sorted@[k]) > 0);
            assert(unsorted.contains(sorted@[k]));
            let j = choose|j: int| 0 <= j < unsorted.len() && unsorted[j] == sorted@[k];
            assert(items_view(unsorted)[j] == item_view(sorted@[k]));
        }
        assert forall|k: int|
            0 <= k < plan_after(files@, files@.len() as int).items.len() implies has_item(
                sorted@,
                #[trigger] plan_after(files@, files@.len() as int).items[k],
            ) by {
            assert(items_view(unsorted)[k] == item_view(unsorted[k]));
            assert(unsorted.to_multiset().count(unsorted[k]) > 0);
            assert(sorted@.contains(unsorted[k]));
            let j = choose|j: int| 0 <= j < sorted@.len() && sorted@[j] == unsorted[k];
            assert(item_view(sorted@[j]) == plan_after(files@, files@.len() as int).items[k]);
        }
        vstd::seq_lib::to_multiset_len(sorted@);
        vstd::seq_lib::to_multiset_len(unsorted);
        plan_names_are_distinct(files@, files@.len() as int);
        assert forall|i: int, j: int| 0 <= i < j < unsorted.len() implies (#[trigger] unsorted[i]).href@
            != (#[trigger] unsorted[j]).href@ && unsorted[i].id@ != unsorted[j].id@ by {
            assert(items_view(unsorted)[i] == item_view(unsorted[i]));
            assert(items_view(unsorted)[j] == item_view(unsorted[j]));
        }
        assert(unsorted.no_duplicates());
        unsorted.lemma_multiset_has_no_duplicates();
        sorted@.lemma_multiset_has_no_duplicates_conv();
        assert forall|i: int, j: int| 0 <= i < j < sorted@.len() implies (#[trigger] sorted@[i]).href@
            != (#[trigger] sorted@[j]).href@ && sorted@[i].id@ != sorted@[j].id@ by {
            assert(sorted@.to_multiset().count(sorted@[i]) > 0);
            assert(sorted@.to_multiset().count(sorted@[j]) > 0);
            assert(unsorted.contains(sorted@[i]));
            assert(unsorted.contains(sorted@[j]));
            let a = choose|a: int| 0 <= a < unsorted.len() && unsorted[a] == sorted@[i];
            let b = choose|b: int| 0 <= b < unsorted.len() && unsorted[b] == sorted@[j];
            assert(a != b);
            if a < b {
                assert(unsorted[a].href@ != unsorted[b].href@ && unsorted[a].id@ != unsorted[b].id@);
            } else {
                assert(unsorted[b].href@ != unsorted[a].href@ && unsorted[b].id@ != unsorted[a].id@);
            }
        }
    }
    AssetPlan { items: sorted, steps }
}

} // verus!
