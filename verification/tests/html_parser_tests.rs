use revyos_imager::html_parser::{
    assemble_variants, default_listing, image_binaries, image_version, leads_up, links_of,
    listings_below, parse_links, parse_listing, version_of, with_trailing_slash,
    without_parent_links, Anchor,
};
use revyos_imager::image::{ImageBinary, ImageBinaryType};
use revyos_imager::string_map::StringMap;

const LISTING: &str = r#"<html><head><title>Index of /revyos/extra/images/lpi4a/20250323/</title></head>
<body><h1>Index of /revyos/extra/images/lpi4a/20250323/</h1><hr><pre>
<a href="../">Parent directory/</a>
<a name="top">no address</a>
<a href="boot-lpi4a-20250323_154524.ext4.zst">boot-lpi4a-20250323_154524.ext4.zst</a>  23-Mar-2025
<a href="root-lpi4a-20250323_154524.ext4.zst">root-<b>lpi4a</b>-20250323_154524.ext4.zst</a>
<a href="u-boot-with-spl-lpi4a-16g-main.bin">u-boot-with-spl-lpi4a-16g-main.bin</a>
<a href="u-boot-with-spl-lpi4a-main.bin">u-boot-with-spl-lpi4a-main.bin</a>
</pre><hr></body></html>"#;

fn pairs(links: &[StringMap]) -> Vec<(Option<String>, Option<String>)> {
    links.iter().map(|l| (l.get("name").cloned(), l.get("address").cloned())).collect()
}

fn pair(name: &str, address: &str) -> (Option<String>, Option<String>) {
    (Some(name.to_string()), Some(address.to_string()))
}

fn link(name: &str, address: &str) -> StringMap {
    let mut map = StringMap::new();
    map.insert("name".to_string(), name.to_string());
    map.insert("address".to_string(), address.to_string());
    map
}

fn release() -> Vec<(Option<String>, Option<String>)> {
    vec![
        pair("boot-lpi4a-20250323_154524.ext4.zst", "boot-lpi4a-20250323_154524.ext4.zst"),
        pair("root-lpi4a-20250323_154524.ext4.zst", "root-lpi4a-20250323_154524.ext4.zst"),
        pair("u-boot-with-spl-lpi4a-16g-main.bin", "u-boot-with-spl-lpi4a-16g-main.bin"),
        pair("u-boot-with-spl-lpi4a-main.bin", "u-boot-with-spl-lpi4a-main.bin"),
    ]
}

#[test]
fn links_are_the_anchors_with_an_address() {
    let mut expected = vec![pair("Parent directory/", "../")];
    expected.extend(release());
    assert_eq!(pairs(&parse_links(LISTING)), expected);
}

#[test]
fn page_without_anchors_has_no_links() {
    assert!(parse_links("").is_empty());
    assert!(parse_links("<p>nothing <b>here</b></p>").is_empty());
    assert!(parse_links("<a>no address</a>").is_empty());
}

#[test]
fn listing_leaves_out_the_way_up() {
    assert_eq!(pairs(&parse_listing(LISTING)), release());
}

#[test]
fn anchor_without_address_is_no_link() {
    let anchors = vec![
        Anchor { text: "a".to_string(), href: Some("x".to_string()) },
        Anchor { text: "b".to_string(), href: None },
        Anchor { text: "".to_string(), href: Some("".to_string()) },
    ];
    assert_eq!(pairs(&links_of(&anchors)), vec![pair("a", "x"), pair("", "")]);
    assert!(links_of(&vec![]).is_empty());
}

#[test]
fn link_leads_up_by_its_name() {
    assert!(leads_up(&link("Parent directory/", "../")));
    assert!(leads_up(&link("the Parent directory", "x")));
    assert!(leads_up(&link("../", "x")));
    assert!(leads_up(&link("a/../b", "x")));
    assert!(!leads_up(&link("parent directory", "../")));
    assert!(!leads_up(&link("..", "../")));
    assert!(!leads_up(&link("", "")));
    let mut nameless = StringMap::new();
    nameless.insert("address".to_string(), "../".to_string());
    assert!(!leads_up(&nameless));
}

#[test]
fn links_that_lead_up_are_left_out_in_place() {
    let links = vec![
        link("Parent directory/", "../"),
        link("20250323/", "20250323/"),
        link("../", "/"),
        link("20250420/", "20250420/"),
    ];
    assert_eq!(
        pairs(&without_parent_links(&links)),
        vec![pair("20250323/", "20250323/"), pair("20250420/", "20250420/")]
    );
}

#[test]
fn address_gets_a_slash_at_its_end() {
    assert_eq!(with_trailing_slash("https://mirror/images".to_string()), "https://mirror/images/");
    assert_eq!(with_trailing_slash("https://mirror/images/".to_string()), "https://mirror/images/");
    assert_eq!(with_trailing_slash(String::new()), "/");
}

#[test]
fn version_is_the_last_segment_of_the_address() {
    assert_eq!(version_of("https://mirror.iscas.ac.cn/revyos/extra/images/lpi4a/20250323/"), "20250323");
    assert_eq!(version_of("https://mirror.iscas.ac.cn/revyos/extra/images/lpi4a/20250323"), "20250323");
    assert_eq!(version_of("20250323"), "20250323");
    assert_eq!(version_of("a//"), "");
    assert_eq!(version_of("/"), "");
    assert_eq!(version_of(""), "");
    assert_eq!(version_of("发行/版本/"), "版本");
}

fn binaries(addresses: &[&str]) -> Vec<ImageBinary> {
    let links: Vec<StringMap> = addresses.iter().map(|a| link(a, a)).collect();
    image_binaries(&links, &"https://mirror/r".to_string()).unwrap()
}

#[test]
fn links_of_a_release_are_its_binaries() {
    let made = binaries(&["boot.ext4", "README", "u-boot.bin"]);
    let seen: Vec<_> =
        made.iter().map(|b| (b.name.as_str(), b.web_path.as_deref(), &b.binary_type)).collect();
    assert_eq!(
        seen,
        vec![
            ("boot.ext4", Some("https://mirror/r/boot.ext4"), &ImageBinaryType::Boot),
            ("README", Some("https://mirror/r/README"), &ImageBinaryType::Other("README".to_string())),
            ("u-boot.bin", Some("https://mirror/r/u-boot.bin"), &ImageBinaryType::UBoot),
        ]
    );
}

#[test]
fn first_link_that_is_no_binary_fails_the_release() {
    let mut nameless = StringMap::new();
    nameless.insert("address".to_string(), "x".to_string());
    let mut empty = StringMap::new();
    empty.insert("other".to_string(), "x".to_string());
    let url = "u".to_string();
    assert_eq!(
        image_binaries(&vec![link("a", "a"), nameless.clone(), empty.clone()], &url).err(),
        Some("Name not found")
    );
    assert_eq!(
        image_binaries(&vec![empty, link("a", "a"), nameless], &url).err(),
        Some("Web path not found")
    );
    assert!(image_binaries(&vec![], &url).unwrap().is_empty());
}

#[test]
fn one_variant_for_each_bootloader() {
    let made = binaries(&[
        "u-boot-8g.bin",
        "root-b.ext4",
        "boot-a.ext4",
        "sdcard.img",
        "root-a.ext4",
        "u-boot-16g.bin",
        "boot-b.ext4",
    ]);
    let variants = assemble_variants(&made).unwrap();
    let seen: Vec<(&str, Vec<&str>)> = variants
        .iter()
        .map(|v| (v.name.as_str(), v.image_binarys.iter().map(|b| b.name.as_str()).collect()))
        .collect();
    assert_eq!(
        seen,
        vec![
            ("u-boot-8g.bin", vec!["root-b.ext4", "boot-a.ext4", "u-boot-8g.bin"]),
            ("u-boot-16g.bin", vec!["root-b.ext4", "boot-a.ext4", "u-boot-16g.bin"]),
        ]
    );
    for variant in &variants {
        for file in &variant.image_binarys {
            assert_eq!(file.local_path, None);
            assert_eq!(file.web_path, Some(format!("https://mirror/r/{}", file.name)));
        }
    }
}

#[test]
fn release_needs_root_and_boot() {
    assert_eq!(assemble_variants(&binaries(&["boot.img", "u-boot.bin"])).err(), Some("Missing ROOT binary"));
    assert_eq!(assemble_variants(&binaries(&["u-boot.bin"])).err(), Some("Missing ROOT binary"));
    assert_eq!(assemble_variants(&binaries(&["root.img", "u-boot.bin"])).err(), Some("Missing BOOT binary"));
    assert!(assemble_variants(&binaries(&["root.img", "boot.img"])).unwrap().is_empty());
}

#[test]
fn release_is_made_of_its_listing() {
    let url = "https://mirror.iscas.ac.cn/revyos/extra/images/lpi4a/20250323/".to_string();
    let version = image_version(&url, &parse_listing(LISTING)).unwrap();
    assert_eq!(version.version, "20250323");
    let names: Vec<_> = version.image_variants.iter().map(|v| v.name.as_str()).collect();
    assert_eq!(names, vec!["u-boot-with-spl-lpi4a-16g-main.bin", "u-boot-with-spl-lpi4a-main.bin"]);
    let first = &version.image_variants[0].image_binarys;
    assert_eq!(
        first.iter().map(|b| &b.binary_type).collect::<Vec<_>>(),
        vec![&ImageBinaryType::Root, &ImageBinaryType::Boot, &ImageBinaryType::UBoot]
    );
    assert_eq!(
        first[0].web_path.as_deref(),
        Some("https://mirror.iscas.ac.cn/revyos/extra/images/lpi4a/20250323//root-lpi4a-20250323_154524.ext4.zst")
    );
    assert_eq!(image_version(&url, &parse_links(LISTING)).map(|v| v.version), Ok("20250323".to_string()));
    assert_eq!(image_version(&url, &vec![]).err(), Some("Missing ROOT binary"));
    assert_eq!(image_version(&url, &vec![StringMap::new()]).err(), Some("Web path not found"));
}

#[test]
fn listings_below_a_listing() {
    let mut nowhere = StringMap::new();
    nowhere.insert("name".to_string(), "x".to_string());
    let links = vec![link("20250323/", "20250323/"), nowhere, link("20250420/", "20250420/")];
    assert_eq!(
        listings_below(&default_listing().to_string(), &links),
        vec![
            "https://mirror.iscas.ac.cn/revyos/extra/images/lpi4a/20250323/",
            "https://mirror.iscas.ac.cn/revyos/extra/images/lpi4a/20250420/"
        ]
    );
    assert!(listings_below(&"u".to_string(), &vec![]).is_empty());
}
