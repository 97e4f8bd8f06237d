//! The directory listings of the mirror: the links of a page, and the
//! images that the links of a release stand for.

use crate::image::{
    binary_of_link, binary_views, BinaryKind, BinaryView, ImageBinary, ImageBinaryType,
    ImageVariant, ImageVersion, VariantView,
};
use crate::string_map::StringMap;
use crate::text::{contains, ends_with, finishes_with, holds};
use vstd::prelude::*;

verus! {

/// An element of a page: the text in it and, where it has the attribute
/// that was asked for, the attribute's value.
#[derive(Clone, Debug, PartialEq, Eq)]
pub struct Anchor {
    pub text: String,
    pub href: Option<String>,
}

/// An element of a page, as contracts speak of it: its text and the value
/// of its attribute.
pub type AnchorView = (Seq<char>, Option<Seq<char>>);

impl View for Anchor {
    type V = AnchorView;

    open spec fn view(&self) -> AnchorView {
        (
            self.text@,
            match self.href {
                Some(value) => Some(value@),
                None => None,
            },
        )
    }
}

/// The elements of `anchors`, as contracts speak of them.
pub open spec fn anchor_views(anchors: Seq<Anchor>) -> Seq<AnchorView> {
    anchors.map_values(|a: Anchor| a@)
}

/// The elements of the page `html` that the CSS selector `selector`
/// selects, in the order of the page, each with its text and the value of
/// its attribute `attribute`; nothing where `selector` is no selector.
pub uninterp spec fn selected(
    html: Seq<char>,
    selector: Seq<char>,
    attribute: Seq<char>,
) -> Option<Seq<AnchorView>>;

/// Calls `scraper::Selector::parse`, `scraper::Html::parse_document` and
/// `scraper::Html::select`, and, for each element that comes out,
/// `ElementRef::text` and `ElementRef::attr`.
///
/// Trusted: what comes out depends on the three strings alone. Of what it
/// is, nothing is claimed but its name.
#[verifier::external_body]
fn select(html: &str, selector: &str, attribute: &str) -> (r: Option<Vec<Anchor>>)
    ensures
        selected(html@, selector@, attribute@) == match r {
            Some(anchors) => Some(anchor_views(anchors@)),
            None => None,
        },
{
    let selector = scraper::Selector::parse(selector).ok()?;
    let document = scraper::Html::parse_document(html);
    let element = |e: scraper::ElementRef| Anchor {
        text: e.text().collect::<Vec<_>>().join(""),
        href: e.attr(attribute).map(|value| value.to_string()),
    };
    Some(document.select(&selector).map(element).collect())
}

/// The map that stands for a link: what the link shows under `name`, and
/// where it leads under `address`.
pub open spec fn link_map(name: Seq<char>, address: Seq<char>) -> Map<Seq<char>, Seq<char>> {
    Map::<Seq<char>, Seq<char>>::empty().insert("name"@, name).insert("address"@, address)
}

/// The links among `anchors`, in their order: an element that leads
/// nowhere is no link.
pub open spec fn link_maps(anchors: Seq<AnchorView>) -> Seq<Map<Seq<char>, Seq<char>>>
    decreases anchors.len(),
{
    if anchors.len() == 0 {
        Seq::empty()
    } else {
        match anchors.last().1 {
            Some(address) => link_maps(anchors.drop_last()).push(
                link_map(anchors.last().0, address),
            ),
            None => link_maps(anchors.drop_last()),
        }
    }
}

/// The maps of `links`, as contracts speak of them.
pub open spec fn map_views(links: Seq<StringMap>) -> Seq<Map<Seq<char>, Seq<char>>> {
    links.map_values(|m: StringMap| m@)
}

/// The address of a page as it is asked of the mirror: with a slash at its
/// end, which is added where it is missing.
pub fn with_trailing_slash(url: String) -> (r: String)
    ensures
        r@ == if finishes_with(url@, "/"@) {
            url@
        } else {
            url@ + "/"@
        },
{
    if ends_with(url.as_str(), "/") {
        url
    } else {
        let mut url = url;
        url.append("/");
        url
    }
}

/// The links among the elements of a page, each as a map with the text of
/// the link under `name` and what it leads to under `address`.
pub fn links_of(anchors: &Vec<Anchor>) -> (r: Vec<StringMap>)
    ensures
        map_views(r@) == link_maps(anchor_views(anchors@)),
{
    let mut links: Vec<StringMap> = Vec::new();
    let mut i: usize = 0;
    assert(anchor_views(anchors@).take(0) =~= Seq::<AnchorView>::empty());
    assert(map_views(links@) =~= Seq::<Map<Seq<char>, Seq<char>>>::empty());
    while i < anchors.len()
        invariant
            i <= anchors@.len(),
            map_views(links@) == link_maps(anchor_views(anchors@).take(i as int)),
        decreases anchors@.len() - i,
    {
        let ghost before = links@;
        proof {
            let views = anchor_views(anchors@);
            assert(views.take(i + 1).drop_last() =~= views.take(i as int));
            assert(views.take(i + 1).last() == anchors@[i as int]@);
        }
        match &anchors[i].href {
            Some(address) => {
                let mut map = StringMap::new();
                map.insert(String::from_str("name"), anchors[i].text.clone());
                map.insert(String::from_str("address"), address.clone());
                links.push(map);
                assert(map_views(links@) =~= map_views(before).push(
                    link_map(anchors@[i as int].text@, address@),
                ));
            },
            None => {},
        }
        i = i + 1;
    }
    assert(anchor_views(anchors@).take(i as int) =~= anchor_views(anchors@));
    links
}

/// All links of the page `html`, that to the directory above among them:
/// the `a` elements of the page that have an `href`.
pub fn parse_links(html: &str) -> (r: Vec<StringMap>)
    ensures
        map_views(r@) == link_maps(
            match selected(html@, "a"@, "href"@) {
                Some(anchors) => anchors,
                None => Seq::empty(),
            },
        ),
{
    match select(html, "a", "href") {
        Some(anchors) => links_of(&anchors),
        None => {
            let none: Vec<StringMap> = Vec::new();
            assert(map_views(none@) =~= Seq::<Map<Seq<char>, Seq<char>>>::empty());
            none
        },
    }
}

/// Whether a link leads to the directory above: its name holds
/// `Parent directory` or `../`.
pub open spec fn is_parent_link(link: Map<Seq<char>, Seq<char>>) -> bool {
    link.contains_key("name"@) && (holds(link["name"@], "Parent directory"@) || holds(
        link["name"@],
        "../"@,
    ))
}

/// The links among `links` that do not lead to the directory above, in
/// their order.
pub open spec fn kept_links(links: Seq<Map<Seq<char>, Seq<char>>>) -> Seq<
    Map<Seq<char>, Seq<char>>,
>
    decreases links.len(),
{
    if links.len() == 0 {
        Seq::empty()
    } else if is_parent_link(links.last()) {
        kept_links(links.drop_last())
    } else {
        kept_links(links.drop_last()).push(links.last())
    }
}

/// Tells whether a link leads to the directory above.
pub fn leads_up(link: &StringMap) -> (r: bool)
    ensures
        r == is_parent_link(link@),
{
    match link.get("name") {
        Some(name) => contains(name.as_str(), "Parent directory") || contains(
            name.as_str(),
            "../",
        ),
        None => false,
    }
}

/// The links of a listing without those that lead to the directory above.
pub fn without_parent_links(links: &Vec<StringMap>) -> (r: Vec<StringMap>)
    ensures
        map_views(r@) == kept_links(map_views(links@)),
{
    let mut kept: Vec<StringMap> = Vec::new();
    let mut i: usize = 0;
    assert(map_views(links@).take(0) =~= Seq::<Map<Seq<char>, Seq<char>>>::empty());
    assert(map_views(kept@) =~= Seq::<Map<Seq<char>, Seq<char>>>::empty());
    while i < links.len()
        invariant
            i <= links@.len(),
            map_views(kept@) == kept_links(map_views(links@).take(i as int)),
        decreases links@.len() - i,
    {
        let ghost before = kept@;
        proof {
            let views = map_views(links@);
            assert(views.take(i + 1).drop_last() =~= views.take(i as int));
            assert(views.take(i + 1).last() == links@[i as int]@);
        }
        if !leads_up(&links[i]) {
            kept.push(links[i].clone());
            assert(map_views(kept@) =~= map_views(before).push(links@[i as int]@));
        }
        i = i + 1;
    }
    assert(map_views(links@).take(i as int) =~= map_views(links@));
    kept
}

/// The links of the page `html` without those that lead to the directory
/// above.
pub fn parse_listing(html: &str) -> (r: Vec<StringMap>)
    ensures
        map_views(r@) == kept_links(
            link_maps(
                match selected(html@, "a"@, "href"@) {
                    Some(anchors) => anchors,
                    None => Seq::empty(),
                },
            ),
        ),
{
    let links = parse_links(html);
    without_parent_links(&links)
}

/// The files that the links of a listing below `url` stand for, or what is
/// missing of the first link that stands for none.
pub open spec fn binaries_of_links(
    links: Seq<Map<Seq<char>, Seq<char>>>,
    url: Seq<char>,
) -> Result<Seq<BinaryView>, Seq<char>>
    decreases links.len(),
{
    if links.len() == 0 {
        Ok(Seq::empty())
    } else {
        match binaries_of_links(links.drop_last(), url) {
            Err(missing) => Err(missing),
            Ok(front) => match binary_of_link(links.last(), url) {
                Ok(binary) => Ok(front.push(binary)),
                Err(missing) => Err(missing),
            },
        }
    }
}

/// The files that the links of the listing at `url` stand for. The first
/// link that lacks an address or a name makes the listing fail, for what
/// that link lacks.
pub fn image_binaries(links: &Vec<StringMap>, url: &String) -> (r: Result<
    Vec<ImageBinary>,
    &'static str,
>)
    ensures
        match r {
            Ok(binaries) => binaries_of_links(map_views(links@), url@) == Ok::<
                Seq<BinaryView>,
                Seq<char>,
            >(binary_views(binaries@)),
            Err(missing) => binaries_of_links(map_views(links@), url@) == Err::<
                Seq<BinaryView>,
                Seq<char>,
            >(missing@),
        },
{
    let mut binaries: Vec<ImageBinary> = Vec::new();
    let mut i: usize = 0;
    assert(map_views(links@).take(0) =~= Seq::<Map<Seq<char>, Seq<char>>>::empty());
    assert(binary_views(binaries@) =~= Seq::<BinaryView>::empty());
    while i < links.len()
        invariant
            i <= links@.len(),
            binaries_of_links(map_views(links@).take(i as int), url@) == Ok::<
                Seq<BinaryView>,
                Seq<char>,
            >(binary_views(binaries@)),
        decreases links@.len() - i,
    {
        let ghost before = binaries@;
        proof {
            let views = map_views(links@);
            assert(views.take(i + 1).drop_last() =~= views.take(i as int));
            assert(views.take(i + 1).last() == links@[i as int]@);
        }
        match ImageBinary::try_from_hashmap(&links[i], url) {
            Ok(binary) => {
                binaries.push(binary);
                assert(binary_views(binaries@) =~= binary_views(before).push(binary@));
            },
            Err(missing) => {
                proof {
                    lemma_first_failure(map_views(links@), url@, i as int);
                }
                return Err(missing);
            },
        }
        i = i + 1;
    }
    assert(map_views(links@).take(i as int) =~= map_views(links@));
    Ok(binaries)
}

/// Where the links before link `i` stand for files and link `i` does not,
/// the listing fails for what is missing of link `i`.
proof fn lemma_first_failure(links: Seq<Map<Seq<char>, Seq<char>>>, url: Seq<char>, i: int)
    requires
        0 <= i < links.len(),
        binaries_of_links(links.take(i), url) is Ok,
        binary_of_link(links[i], url) is Err,
    ensures
        binaries_of_links(links, url) == Err::<Seq<BinaryView>, Seq<char>>(
            binary_of_link(links[i], url)->Err_0,
        ),
    decreases links.len(),
{
    if i == links.len() - 1 {
        assert(links.drop_last() =~= links.take(i));
    } else {
        assert(links.drop_last().take(i) =~= links.take(i));
        lemma_first_failure(links.drop_last(), url, i);
    }
}

/// The first of `binaries` that is for `kind`, if any is.
pub open spec fn first_of(binaries: Seq<BinaryView>, kind: BinaryKind) -> Option<BinaryView>
    decreases binaries.len(),
{
    if binaries.len() == 0 {
        None
    } else {
        match first_of(binaries.drop_last(), kind) {
            Some(binary) => Some(binary),
            None => if binaries.last().binary_type == kind {
                Some(binaries.last())
            } else {
                None
            },
        }
    }
}

/// A file as it stands in a variant that was just put together: not yet
/// looked for on disk.
pub open spec fn not_on_disk(binary: BinaryView) -> BinaryView {
    BinaryView { local_path: None, ..binary }
}

/// The variants that `binaries` make up with the root file system `root`
/// and the boot partition `boot`: one for each bootloader among them, in
/// their order and under its name, of the root file system, the boot
/// partition and the bootloader.
pub open spec fn variants_with(
    binaries: Seq<BinaryView>,
    root: BinaryView,
    boot: BinaryView,
) -> Seq<VariantView>
    decreases binaries.len(),
{
    if binaries.len() == 0 {
        Seq::empty()
    } else if binaries.last().binary_type == BinaryKind::UBoot {
        variants_with(binaries.drop_last(), root, boot).push(
            (
                binaries.last().name,
                seq![not_on_disk(root), not_on_disk(boot), not_on_disk(binaries.last())],
            ),
        )
    } else {
        variants_with(binaries.drop_last(), root, boot)
    }
}

/// The variants that the files of a release make up, or what the release
/// lacks: it needs a root file system and a boot partition, and has one
/// variant for each bootloader.
pub open spec fn variants_of(binaries: Seq<BinaryView>) -> Result<Seq<VariantView>, Seq<char>> {
    match first_of(binaries, BinaryKind::Root) {
        None => Err("Missing ROOT binary"@),
        Some(root) => match first_of(binaries, BinaryKind::Boot) {
            None => Err("Missing BOOT binary"@),
            Some(boot) => Ok(variants_with(binaries, root, boot)),
        },
    }
}

/// The variants `variants`, as contracts speak of them.
pub open spec fn variant_views(variants: Seq<ImageVariant>) -> Seq<VariantView> {
    variants.map_values(|v: ImageVariant| v@)
}

/// The place of the first of `binaries` that is for the root file system
/// (`want_root`) or for the boot partition.
fn find_first(binaries: &Vec<ImageBinary>, want_root: bool) -> (r: Option<usize>)
    ensures
        match r {
            Some(at) => at < binaries@.len() && first_of(
                binary_views(binaries@),
                if want_root {
                    BinaryKind::Root
                } else {
                    BinaryKind::Boot
                },
            ) == Some(binaries@[at as int]@),
            None => first_of(
                binary_views(binaries@),
                if want_root {
                    BinaryKind::Root
                } else {
                    BinaryKind::Boot
                },
            ) is None,
        },
{
    let ghost kind = if want_root {
        BinaryKind::Root
    } else {
        BinaryKind::Boot
    };
    let ghost views = binary_views(binaries@);
    let mut i: usize = 0;
    assert(views.take(0) =~= Seq::<BinaryView>::empty());
    while i < binaries.len()
        invariant
            i <= binaries@.len(),
            views == binary_views(binaries@),
            kind == (if want_root {
                BinaryKind::Root
            } else {
                BinaryKind::Boot
            }),
            first_of(views.take(i as int), kind) is None,
        decreases binaries@.len() - i,
    {
        proof {
            assert(views.take(i + 1).drop_last() =~= views.take(i as int));
            assert(views.take(i + 1).last() == binaries@[i as int]@);
        }
        let found = match &binaries[i].binary_type {
            ImageBinaryType::Root => want_root,
            ImageBinaryType::Boot => !want_root,
            _ => false,
        };
        if found {
            proof {
                lemma_first_stays(views, kind, i as int + 1);
            }
            return Some(i);
        }
        i = i + 1;
    }
    assert(views.take(i as int) =~= views);
    None
}

/// What is first among the first `k` files is first among all.
proof fn lemma_first_stays(binaries: Seq<BinaryView>, kind: BinaryKind, k: int)
    requires
        0 <= k <= binaries.len(),
        first_of(binaries.take(k), kind) is Some,
    ensures
        first_of(binaries, kind) == first_of(binaries.take(k), kind),
    decreases binaries.len(),
{
    if k == binaries.len() {
        assert(binaries.take(k) =~= binaries);
    } else {
        assert(binaries.drop_last().take(k) =~= binaries.take(k));
        lemma_first_stays(binaries.drop_last(), kind, k);
    }
}

/// Puts the files of a release together to variants: one for each
/// bootloader, of the first root file system, the first boot partition and
/// the bootloader. None of the files is taken to be on disk. A release
/// without a root file system or without a boot partition is refused.
pub fn assemble_variants(binaries: &Vec<ImageBinary>) -> (r: Result<Vec<ImageVariant>, &'static str>)
    ensures
        match r {
            Ok(variants) => variants_of(binary_views(binaries@)) == Ok::<
                Seq<VariantView>,
                Seq<char>,
            >(variant_views(variants@)),
            Err(missing) => variants_of(binary_views(binaries@)) == Err::<
                Seq<VariantView>,
                Seq<char>,
            >(missing@),
        },
{
    let root = match find_first(binaries, true) {
        Some(at) => at,
        None => {
            return Err("Missing ROOT binary");
        },
    };
    let boot = match find_first(binaries, false) {
        Some(at) => at,
        None => {
            return Err("Missing BOOT binary");
        },
    };
    let ghost views = binary_views(binaries@);
    let ghost root_view = binaries@[root as int]@;
    let ghost boot_view = binaries@[boot as int]@;
    let mut variants: Vec<ImageVariant> = Vec::new();
    let mut i: usize = 0;
    assert(views.take(0) =~= Seq::<BinaryView>::empty());
    assert(variant_views(variants@) =~= Seq::<VariantView>::empty());
    while i < binaries.len()
        invariant
            i <= binaries@.len(),
            root < binaries@.len(),
            boot < binaries@.len(),
            views == binary_views(binaries@),
            root_view == binaries@[root as int]@,
            boot_view == binaries@[boot as int]@,
            variant_views(variants@) == variants_with(views.take(i as int), root_view, boot_view),
        decreases binaries@.len() - i,
    {
        let ghost before = variants@;
        proof {
            assert(views.take(i + 1).drop_last() =~= views.take(i as int));
            assert(views.take(i + 1).last() == binaries@[i as int]@);
        }
        let is_bootloader = match &binaries[i].binary_type {
            ImageBinaryType::UBoot => true,
            _ => false,
        };
        if is_bootloader {
            let mut files: Vec<ImageBinary> = Vec::new();
            files.push(binaries[root].clone());
            files.push(binaries[boot].clone());
            files.push(binaries[i].clone());
            let variant = ImageVariant::new(binaries[i].name.clone(), files, Vec::new());
            proof {
                assert(variant@.1 =~= seq![
                    not_on_disk(root_view),
                    not_on_disk(boot_view),
                    not_on_disk(binaries@[i as int]@),
                ]);
            }
            variants.push(variant);
            assert(variant_views(variants@) =~= variant_views(before).push(variant@));
        }
        i = i + 1;
    }
    assert(views.take(i as int) =~= views);
    Ok(variants)
}

/// What stands behind the last slash of `s`, or all of `s` where it has
/// none.
pub open spec fn last_segment(s: Seq<char>) -> Seq<char>
    decreases s.len(),
{
    if s.len() == 0 || s.last() == '/' {
        Seq::empty()
    } else {
        last_segment(s.drop_last()).push(s.last())
    }
}

/// The version that the address of a release names: its last segment, a
/// slash at the end of the address not counted.
pub open spec fn version_in(url: Seq<char>) -> Seq<char> {
    if url.len() > 0 && url.last() == '/' {
        last_segment(url.drop_last())
    } else {
        last_segment(url)
    }
}

/// The last segment of `s` is what stands from `from` on, where no slash
/// stands there and one stands just before it, or `s` begins there.
proof fn lemma_last_segment(s: Seq<char>, from: int)
    requires
        0 <= from <= s.len(),
        forall|k: int| from <= k < s.len() ==> s[k] != '/',
        from > 0 ==> s[from - 1] == '/',
    ensures
        last_segment(s) == s.subrange(from, s.len() as int),
    decreases s.len(),
{
    if from == s.len() {
        assert(s.subrange(from, s.len() as int) =~= Seq::<char>::empty());
    } else {
        let front = s.drop_last();
        lemma_last_segment(front, from);
        assert(front.subrange(from, front.len() as int).push(s.last()) =~= s.subrange(
            from,
            s.len() as int,
        ));
    }
}

/// Reads the version off the address of a release.
pub fn version_of(url: &str) -> (r: String)
    ensures
        r@ == version_in(url@),
{
    let len = url.unicode_len();
    let end = if len > 0 && url.get_char(len - 1) == '/' {
        len - 1
    } else {
        len
    };
    let ghost s = url@.subrange(0, end as int);
    assert(s =~= if url@.len() > 0 && url@.last() == '/' {
        url@.drop_last()
    } else {
        url@
    });
    let mut from = end;
    while from > 0 && url.get_char(from - 1) != '/'
        invariant
            from <= end <= url@.len(),
            forall|k: int| from <= k < end ==> url@[k] != '/',
        decreases from,
    {
        from = from - 1;
    }
    proof {
        lemma_last_segment(s, from as int);
        assert(s.subrange(from as int, s.len() as int) =~= url@.subrange(from as int, end as int));
    }
    String::from_str(url.substring_char(from, end))
}

/// A release, as contracts speak of it: its version and its variants.
pub type VersionView = (Seq<char>, Seq<VariantView>);

impl View for ImageVersion {
    type V = VersionView;

    open spec fn view(&self) -> VersionView {
        (self.version@, variant_views(self.image_variants@))
    }
}

/// The release whose listing is at `url` and has the links `links`, or why
/// the listing is that of no release: what is missing of the first link
/// that stands for no file, or the file that the release lacks.
pub open spec fn version_at(
    url: Seq<char>,
    links: Seq<Map<Seq<char>, Seq<char>>>,
) -> Result<VersionView, Seq<char>> {
    match binaries_of_links(links, url) {
        Err(missing) => Err(missing),
        Ok(binaries) => match variants_of(binaries) {
            Err(missing) => Err(missing),
            Ok(variants) => Ok((version_in(url), variants)),
        },
    }
}

/// Makes a release of the links of its listing at `url`: the files that
/// the links stand for, put together to variants, under the version that
/// `url` names. None of the files is taken to be on disk.
pub fn image_version(url: &String, links: &Vec<StringMap>) -> (r: Result<ImageVersion, &'static str>)
    ensures
        match r {
            Ok(version) => version_at(url@, map_views(links@)) == Ok::<VersionView, Seq<char>>(
                version@,
            ),
            Err(missing) => version_at(url@, map_views(links@)) == Err::<VersionView, Seq<char>>(
                missing@,
            ),
        },
{
    let binaries = match image_binaries(links, url) {
        Ok(binaries) => binaries,
        Err(missing) => {
            return Err(missing);
        },
    };
    let image_variants = match assemble_variants(&binaries) {
        Ok(variants) => variants,
        Err(missing) => {
            return Err(missing);
        },
    };
    Ok(ImageVersion { version: version_of(url.as_str()), image_variants })
}

/// Where the listing of all releases is, unless the caller says otherwise.
pub fn default_listing() -> (r: &'static str)
    ensures
        r@ == "https://mirror.iscas.ac.cn/revyos/extra/images/lpi4a/"@,
{
    "https://mirror.iscas.ac.cn/revyos/extra/images/lpi4a/"
}

/// The addresses that `links` lead to from `url`: for each link that has
/// an address, `url` and then the address; a link without one is left
/// out.
pub open spec fn addresses_below(url: Seq<char>, links: Seq<Map<Seq<char>, Seq<char>>>) -> Seq<
    Seq<char>,
>
    decreases links.len(),
{
    if links.len() == 0 {
        Seq::empty()
    } else if links.last().contains_key("address"@) {
        addresses_below(url, links.drop_last()).push(url + links.last()["address"@])
    } else {
        addresses_below(url, links.drop_last())
    }
}

/// The strings `strings`, as contracts speak of them.
pub open spec fn texts(strings: Seq<String>) -> Seq<Seq<char>> {
    strings.map_values(|s: String| s@)
}

/// The addresses of the listings that the links of the listing at `url`
/// lead to, in the order of the links.
pub fn listings_below(url: &String, links: &Vec<StringMap>) -> (r: Vec<String>)
    ensures
        texts(r@) == addresses_below(url@, map_views(links@)),
{
    let mut addresses: Vec<String> = Vec::new();
    let mut i: usize = 0;
    assert(map_views(links@).take(0) =~= Seq::<Map<Seq<char>, Seq<char>>>::empty());
    assert(texts(addresses@) =~= Seq::<Seq<char>>::empty());
    while i < links.len()
        invariant
            i <= links@.len(),
            texts(addresses@) == addresses_below(url@, map_views(links@).take(i as int)),
        decreases links@.len() - i,
    {
        let ghost before = addresses@;
        proof {
            let views = map_views(links@);
            assert(views.take(i + 1).drop_last() =~= views.take(i as int));
            assert(views.take(i + 1).last() == links@[i as int]@);
        }
        match links[i].get("address") {
            Some(address) => {
                let mut below = url.clone();
                below.append(address.as_str());
                addresses.push(below);
                assert(texts(addresses@) =~= texts(before).push(url@ + address@));
            },
            None => {},
        }
        i = i + 1;
    }
    assert(map_views(links@).take(i as int) =~= map_views(links@));
    addresses
}

} // verus!
