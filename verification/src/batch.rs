//! Batch processing: which images a directory yields, where each result goes,
//! and what a finished batch reports.

use vstd::multiset::Multiset;
use vstd::prelude::*;

use crate::order::{lemma_listing_unique, listing, listing_le, components_le, components_lt, lemma_components_trichotomy, lemma_components_transitive, string_lt};
use crate::text::is_literal;
use crate::paths::{ascii_lower_seq, eq_ignore_ascii_case, extension_of, file_extension, file_stem, stem_of};

verus! {

/// An absolute path, held as the names of its components below the root.
#[derive(Debug, PartialEq, Eq)]
pub struct FsPath {
    pub components: Vec<String>,
}

impl View for FsPath {
    type V = Seq<Seq<char>>;

    open spec fn view(&self) -> Seq<Seq<char>> {
        self.components@.map_values(|c: String| c@)
    }
}

/// Whether path `prefix` is `path` or one of its ancestors, comparing whole
/// components.
pub open spec fn is_prefix(prefix: Seq<Seq<char>>, path: Seq<Seq<char>>) -> bool {
    prefix.len() <= path.len() && path.take(prefix.len() as int) == prefix
}

/// How a path is written: `/` before each component, or `/` alone for the root.
pub open spec fn path_text(p: Seq<Seq<char>>) -> Seq<char>
    decreases p.len(),
{
    if p.len() == 0 {
        "/"@
    } else if p.len() == 1 {
        "/"@ + p[0]
    } else {
        path_text(p.drop_last()) + "/"@ + p.last()
    }
}

impl FsPath {
    /// A path with the same components.
    pub fn copy_path(&self) -> (res: FsPath)
        ensures
            res@ == self@,
    {
        let mut components: Vec<String> = Vec::new();
        let mut i: usize = 0;
        while i < self.components.len()
            invariant
                i <= self.components@.len(),
                components@.map_values(|c: String| c@) =~= self@.take(i as int),
            decreases self.components@.len() - i,
        {
            let c = self.components[i].clone();
            assert(c@ == self@[i as int]);
            let ghost before = components@;
            components.push(c);
            assert(components@ == before.push(c));
            assert(components@.map_values(|c: String| c@) =~= before.map_values(|c: String| c@).push(c@));
            i = i + 1;
        }
        assert(self@.take(self@.len() as int) =~= self@);
        FsPath { components }
    }

    /// Whether two paths have the same components.
    pub fn same_as(&self, other: &FsPath) -> (res: bool)
        ensures
            res == (self@ == other@),
    {
        if self.components.len() != other.components.len() {
            assert(self@.len() != other@.len());
            return false;
        }
        let mut i: usize = 0;
        while i < self.components.len()
            invariant
                i <= self.components@.len(),
                self.components@.len() == other.components@.len(),
                forall|j: int| 0 <= j < i ==> self@[j] == other@[j],
            decreases self.components@.len() - i,
        {
            if self.components[i] != other.components[i] {
                assert(self@[i as int] != other@[i as int]);
                return false;
            }
            i = i + 1;
        }
        assert(self@ =~= other@);
        true
    }

    /// Whether `prefix` is this path or one of its ancestors.
    pub fn starts_with(&self, prefix: &FsPath) -> (res: bool)
        ensures
            res == is_prefix(prefix@, self@),
    {
        let n = prefix.components.len();
        if n > self.components.len() {
            return false;
        }
        let mut i: usize = 0;
        while i < n
            invariant
                i <= n,
                n == prefix@.len(),
                n <= self@.len(),
                forall|j: int| 0 <= j < i ==> self@[j] == prefix@[j],
            decreases n - i,
        {
            if self.components[i] != prefix.components[i] {
                assert(self@.take(n as int)[i as int] != prefix@[i as int]);
                return false;
            }
            i = i + 1;
        }
        assert(self@.take(n as int) =~= prefix@);
        true
    }

    /// Whether this path comes strictly before `other` in listing order.
    pub fn precedes(&self, other: &FsPath) -> (res: bool)
        ensures
            res == components_lt(self@, other@),
    {
        let n = self.components.len();
        let m = other.components.len();
        let mut i: usize = 0;
        assert(self@.skip(0) =~= self@);
        assert(other@.skip(0) =~= other@);
        while i < n && i < m
            invariant
                i <= n,
                i <= m,
                n == self@.len(),
                m == other@.len(),
                components_lt(self@, other@) == components_lt(
                    self@.skip(i as int),
                    other@.skip(i as int),
                ),
            decreases n - i,
        {
            let a = &self.components[i];
            let b = &other.components[i];
            assert(self@.skip(i as int)[0] == a@);
            assert(other@.skip(i as int)[0] == b@);
            if *a != *b {
                return string_lt(a, b);
            }
            assert(self@.skip(i as int).drop_first() =~= self@.skip(i + 1));
            assert(other@.skip(i as int).drop_first() =~= other@.skip(i + 1));
            i = i + 1;
        }
        i < m && i == n
    }

    /// How this path is written (see [`path_text`]).
    pub fn to_text(&self) -> (res: String)
        ensures
            res@ == path_text(self@),
    {
        let n = self.components.len();
        if n == 0 {
            return String::from_str("/");
        }
        let mut text = String::from_str("/");
        text.append(self.components[0].as_str());
        let mut i: usize = 1;
        assert(self@.take(1) =~= seq![self@[0]]);
        while i < n
            invariant
                1 <= i <= n,
                n == self@.len(),
                text@ == path_text(self@.take(i as int)),
            decreases n - i,
        {
            text.append("/");
            text.append(self.components[i].as_str());
            assert(self@.take(i + 1).drop_last() =~= self@.take(i as int));
            i = i + 1;
        }
        assert(self@.take(n as int) =~= self@);
        text
    }
}

} // verus!

verus! {

broadcast use {vstd::seq_lib::group_to_multiset_ensures, vstd::multiset::group_multiset_axioms};

/// Something listed by a path.
pub trait PathKeyed {
    /// The path it is listed by.
    spec fn path_key(&self) -> Seq<Seq<char>>;

    /// The path it is listed by.
    fn key(&self) -> (res: &FsPath)
        ensures
            res@ == self.path_key(),
    ;
}

impl PathKeyed for FsPath {
    open spec fn path_key(&self) -> Seq<Seq<char>> {
        self@
    }

    fn key(&self) -> (res: &FsPath) {
        self
    }
}

/// Whether `s` is listed in path order.
pub open spec fn sorted_by_path<T: PathKeyed>(s: Seq<T>) -> bool {
    forall|i: int, j: int|
        0 <= i < j < s.len() ==> components_le(#[trigger] s[i].path_key(), #[trigger] s[j].path_key())
}

/// The paths that the entries of `s` are listed by.
pub open spec fn keys<T: PathKeyed>(s: Seq<T>) -> Seq<Seq<Seq<char>>> {
    s.map_values(|x: T| x.path_key())
}

/// Index of an entry of `items` that comes first in path order.
fn first_in_order<T: PathKeyed>(items: &Vec<T>) -> (res: usize)
    requires
        items@.len() > 0,
    ensures
        res < items@.len(),
        forall|j: int|
            0 <= j < items@.len() ==> components_le(
                items@[res as int].path_key(),
                #[trigger] items@[j].path_key(),
            ),
{
    let mut m: usize = 0;
    let mut k: usize = 1;
    while k < items.len()
        invariant
            0 <= m < items@.len(),
            1 <= k <= items@.len(),
            forall|j: int|
                0 <= j < k ==> components_le(
                    items@[m as int].path_key(),
                    #[trigger] items@[j].path_key(),
                ),
        decreases items@.len() - k,
    {
        if items[k].key().precedes(items[m].key()) {
            proof {
                assert forall|j: int| 0 <= j < k + 1 implies components_le(
                    items@[k as int].path_key(),
                    #[trigger] items@[j].path_key(),
                ) by {
                    if j < k && items@[m as int].path_key() != items@[j].path_key() {
                        lemma_components_transitive(
                            items@[k as int].path_key(),
                            items@[m as int].path_key(),
                            items@[j].path_key(),
                        );
                    }
                }
            }
            m = k;
        } else {
            proof {
                lemma_components_trichotomy(items@[m as int].path_key(), items@[k as int].path_key());
            }
        }
        k = k + 1;
    }
    m
}

/// Puts `items` in path order.
pub fn sort_by_path<T: PathKeyed>(items: Vec<T>) -> (res: Vec<T>)
    ensures
        sorted_by_path(res@),
        res@.to_multiset() == items@.to_multiset(),
        keys(res@) == listing(keys(items@)),
{
    let ghost unsorted = items@;
    let mut rest = items;
    let mut out: Vec<T> = Vec::new();
    assert(out@.to_multiset() =~= Multiset::empty());
    while rest.len() > 0
        invariant
            out@.to_multiset().add(rest@.to_multiset()) == unsorted.to_multiset(),
            keys(out@).to_multiset().add(keys(rest@).to_multiset()) == keys(unsorted).to_multiset(),
            sorted_by_path(out@),
            forall|i: int, j: int|
                0 <= i < out@.len() && 0 <= j < rest@.len() ==> components_le(
                    #[trigger] out@[i].path_key(),
                    #[trigger] rest@[j].path_key(),
                ),
        decreases rest@.len(),
    {
        let m = first_in_order(&rest);
        let ghost old_rest = rest@;
        let ghost old_out = out@;
        let x = rest.remove(m);
        assert(rest@ == old_rest.remove(m as int));
        out.push(x);
        assert(out@ == old_out.push(x));
        proof {
            assert(old_rest.remove(m as int).to_multiset() == old_rest.to_multiset().remove(
                old_rest[m as int],
            ));
            assert(old_rest.to_multiset().count(x) > 0) by {
                assert(old_rest.contains(x)) by {
                    assert(old_rest[m as int] == x);
                }
            }
            assert(out@.to_multiset().add(rest@.to_multiset()) =~= unsorted.to_multiset());
            assert(keys(rest@) =~= keys(old_rest).remove(m as int));
            assert(keys(out@) =~= keys(old_out).push(x.path_key()));
            assert(keys(old_rest)[m as int] == x.path_key());
            assert(keys(old_rest).remove(m as int).to_multiset() == keys(old_rest).to_multiset().remove(
                keys(old_rest)[m as int],
            ));
            assert(keys(old_rest).to_multiset().count(x.path_key()) > 0) by {
                assert(keys(old_rest).contains(x.path_key()));
            }
            assert(keys(out@).to_multiset().add(keys(rest@).to_multiset()) =~= keys(
                unsorted,
            ).to_multiset());
            assert forall|i: int, j: int|
                0 <= i < out@.len() && 0 <= j < rest@.len() implies components_le(
                #[trigger] out@[i].path_key(),
                #[trigger] rest@[j].path_key(),
            ) by {
                let jj = if j < m { j } else { j + 1 };
                assert(rest@[j] == old_rest[jj]);
                if i < old_out.len() {
                    assert(out@[i] == old_out[i]);
                } else {
                    assert(out@[i] == x);
                }
            }
            assert forall|i: int, j: int| 0 <= i < j < out@.len() implies components_le(
                #[trigger] out@[i].path_key(),
                #[trigger] out@[j].path_key(),
            ) by {
                if j < old_out.len() {
                    assert(out@[i] == old_out[i]);
                    assert(out@[j] == old_out[j]);
                } else {
                    assert(out@[i] == old_out[i]);
                    assert(out@[j] == old_rest[m as int]);
                }
            }
        }
    }
    assert(rest@.to_multiset() =~= Multiset::empty());
    assert(out@.to_multiset() =~= unsorted.to_multiset());
    assert(keys(rest@).to_multiset() =~= Multiset::empty());
    assert(keys(out@).to_multiset() =~= keys(unsorted).to_multiset());
    proof {
        assert(vstd::relations::sorted_by(keys(out@), listing_le())) by {
            assert forall|i: int, j: int| 0 <= i < j < keys(out@).len() implies #[trigger] listing_le()(
                keys(out@)[i],
                keys(out@)[j],
            ) by {
                assert(components_le(out@[i].path_key(), out@[j].path_key()));
            }
        }
        lemma_listing_unique(keys(out@), keys(unsorted));
    }
    out
}

} // verus!

verus! {

/// A path as the plain sequence of its components.
pub type PathView = Seq<Seq<char>>;

/// The paths of a list, each as its components.
pub open spec fn path_views(s: Seq<FsPath>) -> Seq<PathView> {
    s.map_values(|p: FsPath| p@)
}

/// One image of a batch and the file its result goes to.
#[derive(Debug, PartialEq, Eq)]
pub struct BatchItem {
    pub input_path: FsPath,
    pub output_path: FsPath,
}

impl View for BatchItem {
    type V = (PathView, PathView);

    open spec fn view(&self) -> (PathView, PathView) {
        (self.input_path@, self.output_path@)
    }
}

/// The items of a plan, each as its input and output paths.
pub open spec fn item_views(s: Seq<BatchItem>) -> Seq<(PathView, PathView)> {
    s.map_values(|it: BatchItem| it@)
}

/// Whether a file name marks a supported image: its extension is `jpg`,
/// `jpeg`, `png`, `webp` or `bmp` in any ASCII case.
pub open spec fn is_supported_name(name: Seq<char>) -> bool {
    match file_extension(name) {
        Some(e) => {
            let l = ascii_lower_seq(e);
            l == "jpg"@ || l == "jpeg"@ || l == "png"@ || l == "webp"@ || l == "bmp"@
        },
        None => false,
    }
}

/// Tests whether a file name marks a supported image (see [`is_supported_name`]).
pub fn is_supported_image(name: &str) -> (res: bool)
    ensures
        res == is_supported_name(name@),
{
    match extension_of(name) {
        None => false,
        Some(e) => {
            let e = e.as_str();
            eq_ignore_ascii_case(e, "jpg") || eq_ignore_ascii_case(e, "jpeg")
                || eq_ignore_ascii_case(e, "png") || eq_ignore_ascii_case(e, "webp")
                || eq_ignore_ascii_case(e, "bmp")
        },
    }
}

/// A file name with its extension replaced by `png`, as
/// `PathBuf::set_extension` does it; `..` has no stem and stays as it is.
pub open spec fn png_name(name: Seq<char>) -> Seq<char> {
    if name == ".."@ {
        name
    } else {
        file_stem(name) + ".png"@
    }
}

/// Where the result for `file` goes: its path below `input_root`, placed
/// below `output_root`, with the extension of its last component set to `png`.
pub open spec fn output_for(input_root: PathView, output_root: PathView, file: PathView) -> PathView {
    let rel = file.skip(input_root.len() as int);
    if rel.len() == 0 {
        output_root
    } else {
        output_root + rel.drop_last().push(png_name(rel.last()))
    }
}

/// The refusal of an output directory at or below the input directory.
pub open spec fn nested_output_error() -> Seq<char> {
    "Output directory must be outside the input directory"@
}

/// The refusal of an output directory that contains the input directory.
pub open spec fn containing_output_error() -> Seq<char> {
    "Output directory must not contain the input directory"@
}

/// The refusal of a directory without supported images.
pub open spec fn no_images_error() -> Seq<char> {
    "No supported images found in input directory"@
}

/// The refusal of an image that does not lie below the input directory.
pub open spec fn outside_image_error(file: PathView) -> Seq<char> {
    "Image is outside input directory: "@ + path_text(file)
}

/// The refusal of two images whose results would go to one file.
pub open spec fn collision_error(first: PathView, second: PathView, output: PathView) -> Seq<char> {
    "Output collision: "@ + path_text(first) + " and "@ + path_text(second) + " both map to "@
        + path_text(output)
}

/// The items for `files`, in their order: each file with its output path,
/// refusing the first file that lies outside `input_root` or whose output
/// path an earlier file already has.
pub open spec fn build_items_spec(input_root: PathView, output_root: PathView, files: Seq<PathView>) -> Result<
    Seq<(PathView, PathView)>,
    Seq<char>,
>
    decreases files.len(),
{
    if files.len() == 0 {
        Ok(seq![])
    } else {
        match build_items_spec(input_root, output_root, files.drop_last()) {
            Err(e) => Err(e),
            Ok(items) => {
                let f = files.last();
                if !is_prefix(input_root, f) {
                    Err(outside_image_error(f))
                } else {
                    let o = output_for(input_root, output_root, f);
                    if exists|k: int| 0 <= k < items.len() && items[k].1 == o {
                        let k = choose|k: int| 0 <= k < items.len() && items[k].1 == o;
                        Err(collision_error(items[k].0, f, o))
                    } else {
                        Ok(items.push((f, o)))
                    }
                }
            },
        }
    }
}

/// The plan for a batch: refused when the output directory is the input
/// directory, lies below it or contains it, or when there is no image;
/// otherwise the items for the images in listing order.
pub open spec fn plan_spec(input_root: PathView, output_root: PathView, files: Seq<PathView>) -> Result<
    Seq<(PathView, PathView)>,
    Seq<char>,
> {
    if is_prefix(input_root, output_root) {
        Err(nested_output_error())
    } else if is_prefix(output_root, input_root) {
        Err(containing_output_error())
    } else if files.len() == 0 {
        Err(no_images_error())
    } else {
        build_items_spec(input_root, output_root, listing(files))
    }
}

/// A file name with its extension replaced by `png` (see [`png_name`]).
pub fn with_png_extension(name: &String) -> (res: String)
    ensures
        res@ == png_name(name@),
{
    proof {
        reveal_strlit("..");
    }
    if is_literal(name, "..") {
        return name.clone();
    }
    let mut out = stem_of(name.as_str());
    out.append(".png");
    out
}

/// Where the result for `file` goes (see [`output_for`]).
pub fn output_path_for(input_root: &FsPath, output_root: &FsPath, file: &FsPath) -> (res: FsPath)
    requires
        is_prefix(input_root@, file@),
    ensures
        res@ == output_for(input_root@, output_root@, file@),
{
    let start = input_root.components.len();
    let n = file.components.len();
    if start == n {
        return output_root.copy_path();
    }
    let mut out = output_root.copy_path();
    let mut i: usize = start;
    let ghost rel = file@.skip(start as int);
    while i + 1 < n
        invariant
            start <= i < n,
            n == file@.len(),
            rel == file@.skip(start as int),
            out@ =~= output_root@ + rel.take(i - start),
        decreases n - i,
    {
        let ghost before = out@;
        out.components.push(file.components[i].clone());
        assert(out@ =~= before.push(file@[i as int]));
        assert(rel.take(i + 1 - start) =~= rel.take(i - start).push(file@[i as int]));
        i = i + 1;
    }
    let ghost before = out@;
    out.components.push(with_png_extension(&file.components[i]));
    assert(rel.drop_last() =~= rel.take(i - start));
    assert(rel.last() == file@[i as int]);
    assert(out@ =~= before.push(png_name(rel.last())));
    out
}

} // verus!

verus! {

/// Pairs each file with its output path, refusing a file outside
/// `input_root` and two files with one output path (see [`build_items_spec`]).
fn build_items(input_root: &FsPath, output_root: &FsPath, files: &Vec<FsPath>) -> (res: Result<
    Vec<BatchItem>,
    String,
>)
    ensures
        match res {
            Ok(items) => build_items_spec(input_root@, output_root@, path_views(files@)) == Ok::<
                Seq<(PathView, PathView)>,
                Seq<char>,
            >(item_views(items@)),
            Err(e) => build_items_spec(input_root@, output_root@, path_views(files@)) == Err::<
                Seq<(PathView, PathView)>,
                Seq<char>,
            >(e@),
        },
{
    let ghost fv = path_views(files@);
    let mut items: Vec<BatchItem> = Vec::new();
    let mut i: usize = 0;
    assert(fv.take(0) =~= Seq::<PathView>::empty());
    assert(item_views(items@) =~= Seq::<(PathView, PathView)>::empty());
    while i < files.len()
        invariant
            i <= files@.len(),
            fv == path_views(files@),
            build_items_spec(input_root@, output_root@, fv.take(i as int)) == Ok::<
                Seq<(PathView, PathView)>,
                Seq<char>,
            >(item_views(items@)),
            forall|a: int, b: int|
                0 <= a < b < items@.len() ==> #[trigger] items@[a].output_path@
                    != #[trigger] items@[b].output_path@,
        decreases files@.len() - i,
    {
        let file = &files[i];
        assert(fv.take(i + 1).drop_last() =~= fv.take(i as int));
        assert(fv.take(i + 1).last() == file@);
        if !file.starts_with(input_root) {
            let mut msg = String::from_str("Image is outside input directory: ");
            msg.append(file.to_text().as_str());
            proof {
                lemma_build_items_prefix_err(input_root@, output_root@, fv, i as int + 1, msg@);
            }
            return Err(msg);
        }
        let out = output_path_for(input_root, output_root, file);
        let mut j: usize = 0;
        while j < items.len()
            invariant
                j <= items@.len(),
                i < files@.len(),
                fv == path_views(files@),
                file@ == fv[i as int],
                out@ == output_for(input_root@, output_root@, file@),
                is_prefix(input_root@, file@),
                fv.take(i + 1).drop_last() == fv.take(i as int),
                build_items_spec(input_root@, output_root@, fv.take(i as int)) == Ok::<
                    Seq<(PathView, PathView)>,
                    Seq<char>,
                >(item_views(items@)),
                forall|a: int, b: int|
                    0 <= a < b < items@.len() ==> #[trigger] items@[a].output_path@
                        != #[trigger] items@[b].output_path@,
                forall|k: int| 0 <= k < j ==> items@[k].output_path@ != out@,
            decreases items@.len() - j,
        {
            if items[j].output_path.same_as(&out) {
                let mut msg = String::from_str("Output collision: ");
                msg.append(items[j].input_path.to_text().as_str());
                msg.append(" and ");
                msg.append(file.to_text().as_str());
                msg.append(" both map to ");
                msg.append(out.to_text().as_str());
                proof {
                    let iv = item_views(items@);
                    assert(iv[j as int].1 == out@);
                    let k = choose|k: int| 0 <= k < iv.len() && iv[k].1 == out@;
                    if k != j as int {
                        if k < j as int {
                            assert(items@[k].output_path@ != items@[j as int].output_path@);
                        } else {
                            assert(items@[j as int].output_path@ != items@[k].output_path@);
                        }
                    }
                    assert(k == j as int);
                    lemma_build_items_prefix_err(input_root@, output_root@, fv, i as int + 1, msg@);
                }
                return Err(msg);
            }
            j = j + 1;
        }
        let ghost before = items@;
        items.push(BatchItem { input_path: file.copy_path(), output_path: out });
        proof {
            let iv = item_views(before);
            assert(!(exists|k: int| 0 <= k < iv.len() && iv[k].1 == output_for(input_root@, output_root@, file@)));
            assert(item_views(items@) =~= iv.push((file@, output_for(input_root@, output_root@, file@))));
        }
        i = i + 1;
    }
    assert(fv.take(files@.len() as int) =~= fv);
    Ok(items)
}

/// When the items of the first `n` files end in a refusal, so do the items
/// of all files.
proof fn lemma_build_items_prefix_err(
    input_root: PathView,
    output_root: PathView,
    files: Seq<PathView>,
    n: int,
    e: Seq<char>,
)
    requires
        0 <= n <= files.len(),
        build_items_spec(input_root, output_root, files.take(n)) == Err::<
            Seq<(PathView, PathView)>,
            Seq<char>,
        >(e),
    ensures
        build_items_spec(input_root, output_root, files) == Err::<
            Seq<(PathView, PathView)>,
            Seq<char>,
        >(e),
    decreases files.len() - n,
{
    if n < files.len() {
        assert(files.take(n + 1).drop_last() =~= files.take(n));
        lemma_build_items_prefix_err(input_root, output_root, files, n + 1, e);
    } else {
        assert(files.take(n) =~= files);
    }
}

/// Plans a batch from the canonical input and output directories and the
/// image files found below the input directory.
pub fn plan_items(input_root: &FsPath, output_root: &FsPath, files: Vec<FsPath>) -> (res: Result<
    Vec<BatchItem>,
    String,
>)
    ensures
        match res {
            Ok(items) => plan_spec(input_root@, output_root@, path_views(files@)) == Ok::<
                Seq<(PathView, PathView)>,
                Seq<char>,
            >(item_views(items@)),
            Err(e) => plan_spec(input_root@, output_root@, path_views(files@)) == Err::<
                Seq<(PathView, PathView)>,
                Seq<char>,
            >(e@),
        },
{
    match check_output_root(input_root, output_root) {
        Ok(()) => {},
        Err(e) => return Err(e),
    }
    if files.len() == 0 {
        return Err(String::from_str("No supported images found in input directory"));
    }
    let ghost fv = path_views(files@);
    let sorted = sort_by_path(files);
    assert(keys(sorted@) =~= path_views(sorted@));
    assert(keys(files@) =~= fv);
    build_items(input_root, output_root, &sorted)
}

} // verus!

verus! {

/// Refuses an output directory that is the input directory, lies below it or
/// contains it: results must go to a tree of their own.
pub fn check_output_root(input_root: &FsPath, output_root: &FsPath) -> (res: Result<(), String>)
    ensures
        res is Ok <==> !is_prefix(input_root@, output_root@) && !is_prefix(
            output_root@,
            input_root@,
        ),
        res matches Err(e) ==> e@ == (if is_prefix(input_root@, output_root@) {
            nested_output_error()
        } else {
            containing_output_error()
        }),
{
    if output_root.starts_with(input_root) {
        Err(String::from_str("Output directory must be outside the input directory"))
    } else if input_root.starts_with(output_root) {
        Err(String::from_str("Output directory must not contain the input directory"))
    } else {
        Ok(())
    }
}

/// How many workers a batch of `items` images runs with: `jobs`, but at
/// least one and no more than there are images.
pub fn worker_count(jobs: usize, items: usize) -> (res: usize)
    requires
        items >= 1,
    ensures
        res == (if jobs < 1 {
            1
        } else if jobs > items {
            items
        } else {
            jobs
        }),
        1 <= res <= items,
{
    if jobs < 1 {
        1
    } else if jobs > items {
        items
    } else {
        jobs
    }
}

/// What became of one image of a batch.
#[derive(Debug, PartialEq, Eq)]
pub struct BatchResult {
    pub input_path: FsPath,
    pub output_path: FsPath,
    pub error: Option<String>,
}

impl PathKeyed for BatchResult {
    open spec fn path_key(&self) -> Seq<Seq<char>> {
        self.input_path@
    }

    fn key(&self) -> (res: &FsPath) {
        &self.input_path
    }
}

/// What a finished batch reports.
#[derive(Debug, PartialEq, Eq)]
pub struct BatchSummary {
    pub total: usize,
    pub succeeded: usize,
    pub failed: usize,
    pub results: Vec<BatchResult>,
}

/// The number of results that carry an error.
pub open spec fn error_count(s: Seq<BatchResult>) -> nat
    decreases s.len(),
{
    if s.len() == 0 {
        0
    } else {
        error_count(s.drop_last()) + if s.last().error is Some {
            1nat
        } else {
            0nat
        }
    }
}

proof fn lemma_error_count_bound(s: Seq<BatchResult>)
    ensures
        error_count(s) <= s.len(),
    decreases s.len(),
{
    if s.len() > 0 {
        lemma_error_count_bound(s.drop_last());
    }
}

/// Lists the results of a batch by input path and counts them.
pub fn summarize(results: Vec<BatchResult>) -> (res: BatchSummary)
    ensures
        sorted_by_path(res.results@),
        res.results@.to_multiset() == results@.to_multiset(),
        keys(res.results@) == listing(keys(results@)),
        res.total == results@.len(),
        res.failed == error_count(res.results@),
        res.succeeded + res.failed == res.total,
        res.failed == res.results@.filter(|r: BatchResult| has_error(r)).len(),
        res.succeeded == res.results@.filter(|r: BatchResult| has_no_error(r)).len(),
{
    let sorted = sort_by_path(results);
    let mut failed: usize = 0;
    let mut i: usize = 0;
    proof {
        lemma_error_count_bound(sorted@);
    }
    assert(sorted@.take(0) =~= Seq::<BatchResult>::empty());
    while i < sorted.len()
        invariant
            i <= sorted@.len(),
            failed == error_count(sorted@.take(i as int)),
            error_count(sorted@) <= sorted@.len(),
        decreases sorted@.len() - i,
    {
        proof {
            lemma_error_count_bound(sorted@.take(i as int));
        }
        assert(sorted@.take(i + 1).drop_last() =~= sorted@.take(i as int));
        if sorted[i].error.is_some() {
            failed = failed + 1;
        }
        i = i + 1;
    }
    assert(sorted@.take(sorted@.len() as int) =~= sorted@);
    proof {
        vstd::seq_lib::to_multiset_len(sorted@);
        vstd::seq_lib::to_multiset_len(results@);
    }
    proof {
        law_error_count_counts_errors(sorted@);
    }
    let total = sorted.len();
    BatchSummary { total, succeeded: total - failed, failed, results: sorted }
}

} // verus!

verus! {

proof fn lemma_build_items_facts(input_root: PathView, output_root: PathView, files: Seq<PathView>)
    ensures
        build_items_spec(input_root, output_root, files) matches Ok(items) ==> {
            &&& items.len() == files.len()
            &&& forall|k: int| 0 <= k < items.len() ==> #[trigger] items[k] == (
                files[k],
                output_for(input_root, output_root, files[k]),
            )
            &&& forall|k: int| 0 <= k < items.len() ==> is_prefix(input_root, #[trigger] files[k])
            &&& forall|a: int, b: int|
                0 <= a < b < items.len() ==> #[trigger] items[a].1 != #[trigger] items[b].1
        },
    decreases files.len(),
{
    if files.len() > 0 {
        lemma_build_items_facts(input_root, output_root, files.drop_last());
        if let Ok(items) = build_items_spec(input_root, output_root, files) {
            let prev = build_items_spec(input_root, output_root, files.drop_last())->Ok_0;
            assert(items == prev.push((files.last(), output_for(input_root, output_root, files.last()))));
            assert forall|k: int| 0 <= k < items.len() implies is_prefix(input_root, #[trigger] files[k]) by {
                if k < prev.len() {
                    assert(files[k] == files.drop_last()[k]);
                }
            }
            assert forall|k: int| 0 <= k < items.len() implies #[trigger] items[k] == (
                files[k],
                output_for(input_root, output_root, files[k]),
            ) by {
                if k < prev.len() {
                    assert(files[k] == files.drop_last()[k]);
                }
            }
        }
    }
}

/// An accepted plan has one item per image, in listing order; each image
/// lies below the input directory and its result below the output
/// directory, at the path [`output_for`] gives; no two results share a path;
/// and the output directory is neither the input directory, nor below it,
/// nor above it.
pub proof fn law_plan_items(input_root: PathView, output_root: PathView, files: Seq<PathView>)
    ensures
        plan_spec(input_root, output_root, files) matches Ok(items) ==> {
            &&& !is_prefix(input_root, output_root)
            &&& !is_prefix(output_root, input_root)
            &&& items.len() == files.len() > 0
            &&& vstd::relations::sorted_by(listing(files), listing_le())
            &&& forall|k: int| 0 <= k < items.len() ==> (#[trigger] items[k]).0 == listing(files)[k]
            &&& forall|k: int| 0 <= k < items.len() ==> is_prefix(input_root, (#[trigger] items[k]).0)
            &&& forall|k: int| 0 <= k < items.len() ==> is_prefix(output_root, (#[trigger] items[k]).1)
            &&& forall|k: int|
                0 <= k < items.len() ==> (#[trigger] items[k]).1 == output_for(
                    input_root,
                    output_root,
                    items[k].0,
                )
            &&& forall|a: int, b: int|
                0 <= a < b < items.len() ==> #[trigger] items[a].1 != #[trigger] items[b].1
        },
{
    crate::order::lemma_listing_total();
    files.lemma_sort_by_ensures(listing_le());
    lemma_build_items_facts(input_root, output_root, listing(files));
    vstd::seq_lib::to_multiset_len(files);
    vstd::seq_lib::to_multiset_len(listing(files));
    if let Ok(items) = plan_spec(input_root, output_root, files) {
        assert forall|k: int| 0 <= k < items.len() implies is_prefix(output_root, (#[trigger] items[k]).1) by {
            let o = items[k].1;
            assert(o.take(output_root.len() as int) =~= output_root);
        }
    }
}

/// A plan is refused with [`nested_output_error`] when the output directory
/// is the input directory or lies below it.
pub proof fn law_plan_refuses_nested_output(input_root: PathView, output_root: PathView, files: Seq<PathView>)
    requires
        is_prefix(input_root, output_root),
    ensures
        plan_spec(input_root, output_root, files) == Err::<Seq<(PathView, PathView)>, Seq<char>>(
            nested_output_error(),
        ),
{
}

/// A plan is refused with [`containing_output_error`] when the output
/// directory contains the input directory (and is not the same directory).
pub proof fn law_plan_refuses_containing_output(
    input_root: PathView,
    output_root: PathView,
    files: Seq<PathView>,
)
    requires
        is_prefix(output_root, input_root),
        !is_prefix(input_root, output_root),
    ensures
        plan_spec(input_root, output_root, files) == Err::<Seq<(PathView, PathView)>, Seq<char>>(
            containing_output_error(),
        ),
{
}

/// No result of an accepted plan is written into the input directory's tree.
pub proof fn law_results_stay_outside_input(input_root: PathView, output_root: PathView, files: Seq<PathView>)
    ensures
        plan_spec(input_root, output_root, files) matches Ok(items) ==> forall|k: int|
            0 <= k < items.len() ==> !is_prefix(input_root, (#[trigger] items[k]).1),
{
    law_plan_items(input_root, output_root, files);
    if let Ok(items) = plan_spec(input_root, output_root, files) {
        assert forall|k: int| 0 <= k < items.len() implies !is_prefix(input_root, (#[trigger] items[k]).1) by {
            let o = items[k].1;
            assert(o.take(output_root.len() as int) == output_root);
            if is_prefix(input_root, o) {
                if input_root.len() <= output_root.len() {
                    assert(output_root.take(input_root.len() as int) =~= o.take(input_root.len() as int));
                } else {
                    assert(input_root.take(output_root.len() as int) =~= o.take(output_root.len() as int));
                }
            }
        }
    }
}

/// A batch counts as failed exactly when one of its results carries an error.
pub proof fn law_failures_are_counted(results: Seq<BatchResult>)
    ensures
        error_count(results) > 0 <==> exists|k: int| 0 <= k < results.len() && (#[trigger] results[k]).error is Some,
    decreases results.len(),
{
    if results.len() > 0 {
        law_failures_are_counted(results.drop_last());
        if error_count(results.drop_last()) > 0 {
            let k = choose|k: int| 0 <= k < results.drop_last().len() && (#[trigger] results.drop_last()[k]).error is Some;
            assert(results[k] == results.drop_last()[k]);
        }
        if exists|k: int| 0 <= k < results.len() && (#[trigger] results[k]).error is Some {
            let k = choose|k: int| 0 <= k < results.len() && (#[trigger] results[k]).error is Some;
            if k < results.len() - 1 {
                assert(results.drop_last()[k] == results[k]);
            }
        }
    }
}

} // verus!

verus! {

/// A batch being worked through: the items not yet handed out, the number
/// handed out and not yet finished, and the results recorded so far.
/// Every planned item is in exactly one of these three places, and a run has
/// at least one item.
#[derive(Debug)]
pub struct BatchRun {
    pending: Vec<BatchItem>,
    in_flight: usize,
    results: Vec<BatchResult>,
    planned: usize,
}

impl BatchRun {
    #[verifier::type_invariant]
    spec fn every_item_accounted(self) -> bool {
        &&& self.pending@.len() + self.in_flight + self.results@.len() == self.planned
        &&& self.planned >= 1
    }

    /// The number of items the run started with.
    pub closed spec fn planned_count(self) -> nat {
        self.planned as nat
    }

    /// The items not yet handed out, first to be handed out first.
    pub closed spec fn pending_items(self) -> Seq<BatchItem> {
        self.pending@
    }

    /// The number of items handed out and not yet finished.
    pub closed spec fn in_flight_count(self) -> nat {
        self.in_flight as nat
    }

    /// The results recorded so far, in the order they were recorded.
    pub closed spec fn recorded(self) -> Seq<BatchResult> {
        self.results@
    }

    /// Whether every item has been handed out and finished.
    pub open spec fn is_finished(self) -> bool {
        self.pending_items().len() == 0 && self.in_flight_count() == 0
    }

    /// A run of `items`, none handed out yet.
    pub fn new(items: Vec<BatchItem>) -> (res: BatchRun)
        requires
            items@.len() >= 1,
        ensures
            res.planned_count() == items@.len(),
            res.pending_items() == items@,
            res.in_flight_count() == 0,
            res.recorded().len() == 0,
    {
        let planned = items.len();
        BatchRun { pending: items, in_flight: 0, results: Vec::new(), planned }
    }

    /// The number of items not yet handed out.
    pub fn pending_count(&self) -> (res: usize)
        ensures
            res == self.pending_items().len(),
    {
        self.pending.len()
    }

    /// Whether every item has been handed out and finished.
    pub fn is_done(&self) -> (res: bool)
        ensures
            res == self.is_finished(),
    {
        self.pending.len() == 0 && self.in_flight == 0
    }

    /// The number of items handed out and not yet finished.
    pub fn in_flight(&self) -> (res: usize)
        ensures
            res == self.in_flight_count(),
    {
        self.in_flight
    }

    /// Hands out the next pending item, if any.
    pub fn next_item(&mut self) -> (res: Option<BatchItem>)
        ensures
            final(self).planned_count() == old(self).planned_count(),
            final(self).recorded() == old(self).recorded(),
            match res {
                Some(item) => {
                    &&& old(self).pending_items().len() > 0
                    &&& item == old(self).pending_items()[0]
                    &&& final(self).pending_items() == old(self).pending_items().drop_first()
                    &&& final(self).in_flight_count() == old(self).in_flight_count() + 1
                },
                None => {
                    &&& old(self).pending_items().len() == 0
                    &&& final(self).pending_items() == old(self).pending_items()
                    &&& final(self).in_flight_count() == old(self).in_flight_count()
                },
            },
    {
        proof {
            use_type_invariant(&*self);
        }
        if self.pending.len() == 0 {
            return None;
        }
        let mut taken = BatchRun { pending: Vec::new(), in_flight: 1, results: Vec::new(), planned: 1 };
        std::mem::swap(&mut taken, self);
        proof {
            use_type_invariant(&taken);
        }
        let BatchRun { mut pending, in_flight, results, planned } = taken;
        let item = pending.remove(0);
        *self = BatchRun { pending, in_flight: in_flight + 1, results, planned };
        Some(item)
    }

    /// Records the outcome of an item handed out earlier.
    pub fn finish_item(&mut self, item: BatchItem, error: Option<String>)
        requires
            old(self).in_flight_count() > 0,
        ensures
            final(self).planned_count() == old(self).planned_count(),
            final(self).pending_items() == old(self).pending_items(),
            final(self).in_flight_count() == old(self).in_flight_count() - 1,
            final(self).recorded() == old(self).recorded().push(
                (BatchResult { input_path: item.input_path, output_path: item.output_path, error }),
            ),
    {
        proof {
            use_type_invariant(&*self);
        }
        let mut taken = BatchRun { pending: Vec::new(), in_flight: 1, results: Vec::new(), planned: 1 };
        std::mem::swap(&mut taken, self);
        proof {
            use_type_invariant(&taken);
        }
        let BatchRun { pending, in_flight, mut results, planned } = taken;
        results.push(
            BatchResult { input_path: item.input_path, output_path: item.output_path, error },
        );
        *self = BatchRun { pending, in_flight: in_flight - 1, results, planned };
    }

    /// The summary of a finished run (see [`summarize`]): it reports every
    /// planned item, so at least one.
    pub fn into_summary(self) -> (res: BatchSummary)
        requires
            self.is_finished(),
        ensures
            sorted_by_path(res.results@),
            res.results@.to_multiset() == self.recorded().to_multiset(),
            keys(res.results@) == listing(keys(self.recorded())),
            res.total == self.recorded().len(),
            res.failed == error_count(res.results@),
            res.succeeded + res.failed == res.total,
            res.failed == res.results@.filter(|r: BatchResult| has_error(r)).len(),
            res.succeeded == res.results@.filter(|r: BatchResult| has_no_error(r)).len(),
            res.total == self.planned_count(),
            res.total >= 1,
    {
        proof {
            use_type_invariant(&self);
        }
        let BatchRun { results, .. } = self;
        summarize(results)
    }
}

/// Plans a batch (see [`plan_items`]) and starts a run of its items.
pub fn plan_run(input_root: &FsPath, output_root: &FsPath, files: Vec<FsPath>) -> (res: Result<
    BatchRun,
    String,
>)
    ensures
        match res {
            Ok(run) => {
                &&& plan_spec(input_root@, output_root@, path_views(files@)) == Ok::<
                    Seq<(PathView, PathView)>,
                    Seq<char>,
                >(item_views(run.pending_items()))
                &&& run.planned_count() == run.pending_items().len()
                &&& run.planned_count() >= 1
                &&& run.in_flight_count() == 0
                &&& run.recorded().len() == 0
            },
            Err(e) => plan_spec(input_root@, output_root@, path_views(files@)) == Err::<
                Seq<(PathView, PathView)>,
                Seq<char>,
            >(e@),
        },
{
    let ghost fv = path_views(files@);
    let items = match plan_items(input_root, output_root, files) {
        Ok(items) => items,
        Err(e) => return Err(e),
    };
    proof {
        law_plan_items(input_root@, output_root@, fv);
    }
    Ok(BatchRun::new(items))
}

} // verus!

verus! {

proof fn lemma_lower_last_dot(n: Seq<char>)
    ensures
        crate::paths::last_index_of(ascii_lower_seq(n), '.') == crate::paths::last_index_of(n, '.'),
    decreases n.len(),
{
    if n.len() > 0 {
        assert(ascii_lower_seq(n).drop_last() =~= ascii_lower_seq(n.drop_last()));
        assert(ascii_lower_seq(n).last() == crate::paths::ascii_lower(n.last()));
        lemma_lower_last_dot(n.drop_last());
    }
}

/// Whether an image file is supported does not depend on the ASCII case of
/// its name, and every name made of a dot-free stem and `.jpg` is supported.
pub proof fn law_supported_ignores_case(n: Seq<char>, stem: Seq<char>)
    ensures
        is_supported_name(n) == is_supported_name(ascii_lower_seq(n)),
        stem.len() > 0 && (forall|i: int| 0 <= i < stem.len() ==> stem[i] != '.')
            ==> is_supported_name(stem + ".jpg"@),
{
    reveal_strlit("..");
    reveal_strlit(".jpg");
    reveal_strlit("jpg");
    let l = ascii_lower_seq(n);
    lemma_lower_last_dot(n);
    if n == ".."@ {
        assert(l =~= ".."@);
    }
    if l == ".."@ {
        assert(n.len() == 2);
        assert(l[0] == crate::paths::ascii_lower(n[0]));
        assert(l[1] == crate::paths::ascii_lower(n[1]));
        assert(n =~= ".."@);
    }
    let k = crate::paths::last_index_of(n, '.');
    crate::paths::lemma_last_index_bounds(n, '.');
    if k > 0 && n != ".."@ {
        let e = n.skip(k + 1);
        assert(l.skip(k + 1) =~= ascii_lower_seq(e));
        assert(ascii_lower_seq(ascii_lower_seq(e)) =~= ascii_lower_seq(e));
    }
    if stem.len() > 0 && (forall|i: int| 0 <= i < stem.len() ==> stem[i] != '.') {
        let s = stem + ".jpg"@;
        crate::paths::lemma_last_index_bounds(s, '.');
        assert(s[stem.len() as int] == '.');
        assert(crate::paths::last_index_of(s, '.') == stem.len()) by {
            assert(s.drop_last().drop_last().drop_last() =~= stem.push('.'));
            assert(s.drop_last().drop_last() =~= stem.push('.').push('j'));
            assert(s.drop_last() =~= stem.push('.').push('j').push('p'));
        }
        assert(s != ".."@) by {
            if s.len() == 2 {
            }
        }
        assert(s.skip(stem.len() as int + 1) =~= "jpg"@);
        assert(ascii_lower_seq("jpg"@) =~= "jpg"@);
    }
}

} // verus!

verus! {

/// Whether a result carries an error.
pub open spec fn has_error(r: BatchResult) -> bool {
    r.error is Some
}

/// Whether a result carries no error.
pub open spec fn has_no_error(r: BatchResult) -> bool {
    r.error is None
}

/// The failures of a list of results are the results that carry an error,
/// and the successes are the others: counting them gives [`error_count`] and
/// the rest of the list.
pub proof fn law_error_count_counts_errors(s: Seq<BatchResult>)
    ensures
        error_count(s) == s.filter(|r: BatchResult| has_error(r)).len(),
        s.filter(|r: BatchResult| has_no_error(r)).len() + error_count(s) == s.len(),
    decreases s.len(),
{
    reveal_with_fuel(Seq::<BatchResult>::filter, 1);
    if s.len() > 0 {
        law_error_count_counts_errors(s.drop_last());
    }
}

} // verus!

verus! {

proof fn lemma_build_items_accepts(input_root: PathView, output_root: PathView, s: Seq<PathView>)
    requires
        forall|k: int| 0 <= k < s.len() ==> is_prefix(input_root, #[trigger] s[k]),
        forall|a: int, b: int|
            0 <= a < b < s.len() ==> output_for(input_root, output_root, #[trigger] s[a])
                != output_for(input_root, output_root, #[trigger] s[b]),
    ensures
        build_items_spec(input_root, output_root, s) == Ok::<
            Seq<(PathView, PathView)>,
            Seq<char>,
        >(Seq::new(s.len(), |k: int| (s[k], output_for(input_root, output_root, s[k])))),
    decreases s.len(),
{
    if s.len() > 0 {
        let p = s.drop_last();
        assert forall|a: int, b: int| 0 <= a < b < p.len() implies output_for(
            input_root,
            output_root,
            #[trigger] p[a],
        ) != output_for(input_root, output_root, #[trigger] p[b]) by {
            assert(p[a] == s[a] && p[b] == s[b]);
        }
        assert forall|k: int| 0 <= k < p.len() implies is_prefix(input_root, #[trigger] p[k]) by {
            assert(p[k] == s[k]);
        }
        lemma_build_items_accepts(input_root, output_root, p);
        let items = Seq::new(p.len(), |k: int| (p[k], output_for(input_root, output_root, p[k])));
        let f = s.last();
        let o = output_for(input_root, output_root, f);
        assert(is_prefix(input_root, s[s.len() - 1]));
        assert forall|k: int| 0 <= k < items.len() implies items[k].1 != o by {
            assert(p[k] == s[k]);
            assert(output_for(input_root, output_root, s[k]) != output_for(
                input_root,
                output_root,
                s[s.len() - 1],
            ));
        }
        assert(items.push((f, o)) =~= Seq::new(
            s.len(),
            |k: int| (s[k], output_for(input_root, output_root, s[k])),
        ));
    } else {
        assert(Seq::<(PathView, PathView)>::empty() =~= Seq::new(
            s.len(),
            |k: int| (s[k], output_for(input_root, output_root, s[k])),
        ));
    }
}

/// Results collide only when they would be the very same file: a plan with
/// separate input and output trees, at least one image, every image below
/// the input directory and the output paths of any two different images
/// different, is accepted, with every image mapped to its own output path.
pub proof fn law_distinct_outputs_are_accepted(
    input_root: PathView,
    output_root: PathView,
    files: Seq<PathView>,
)
    requires
        !is_prefix(input_root, output_root),
        !is_prefix(output_root, input_root),
        files.len() > 0,
        forall|k: int| 0 <= k < files.len() ==> is_prefix(input_root, #[trigger] files[k]),
        forall|k: int, l: int|
            0 <= k < files.len() && 0 <= l < files.len() && k != l ==> output_for(
                input_root,
                output_root,
                #[trigger] files[k],
            ) != output_for(input_root, output_root, #[trigger] files[l]),
    ensures
        plan_spec(input_root, output_root, files) matches Ok(items) && items.len() == files.len()
            && forall|k: int|
            0 <= k < items.len() ==> (#[trigger] items[k]).1 == output_for(
                input_root,
                output_root,
                items[k].0,
            ) && files.contains(items[k].0),
{
    let s = listing(files);
    crate::order::lemma_listing_total();
    files.lemma_sort_by_ensures(listing_le());
    vstd::seq_lib::to_multiset_len(files);
    vstd::seq_lib::to_multiset_len(s);
    assert(files.no_duplicates()) by {
        assert forall|i: int, j: int|
            0 <= i < files.len() && 0 <= j < files.len() && i != j implies files[i] != files[j] by {
            if files[i] == files[j] {
                assert(output_for(input_root, output_root, files[i]) == output_for(
                    input_root,
                    output_root,
                    files[j],
                ));
            }
        }
    }
    files.lemma_multiset_has_no_duplicates();
    s.lemma_multiset_has_no_duplicates_conv();
    assert forall|k: int| 0 <= k < s.len() implies files.contains(#[trigger] s[k]) by {
        assert(s.contains(s[k]));
    }
    assert forall|k: int| 0 <= k < s.len() implies is_prefix(input_root, #[trigger] s[k]) by {
        assert(files.contains(s[k]));
    }
    assert forall|a: int, b: int| 0 <= a < b < s.len() implies output_for(
        input_root,
        output_root,
        #[trigger] s[a],
    ) != output_for(input_root, output_root, #[trigger] s[b]) by {
        assert(files.contains(s[a]));
        assert(files.contains(s[b]));
        let k = choose|k: int| 0 <= k < files.len() && files[k] == s[a];
        let l = choose|l: int| 0 <= l < files.len() && files[l] == s[b];
        assert(s[a] != s[b]);
        assert(k != l);
    }
    lemma_build_items_accepts(input_root, output_root, s);
}

} // verus!
