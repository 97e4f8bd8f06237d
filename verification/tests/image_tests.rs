use revyos_imager::image::{
    Fetch, ImageBinary, ImageBinaryHashError, ImageBinaryType, ImageVariant, ImageVersion,
    Progress, ProgressType,
};
use revyos_imager::string_map::StringMap;

fn link(name: Option<&str>, address: Option<&str>) -> StringMap {
    let mut map = StringMap::new();
    if let Some(name) = name {
        map.insert("name".to_string(), name.to_string());
    }
    if let Some(address) = address {
        map.insert("address".to_string(), address.to_string());
    }
    map
}

fn binary(name: &str, web: Option<&str>, local: Option<&str>, kind: ImageBinaryType) -> ImageBinary {
    ImageBinary {
        name: name.to_string(),
        web_path: web.map(str::to_string),
        local_path: local.map(str::to_string),
        binary_type: kind,
        hash_type: Some("SHA256".to_string()),
        hash_value: None,
    }
}

#[test]
fn binary_needs_a_place() {
    let refused = ImageBinary::new(
        "u-boot.bin".to_string(),
        None,
        None,
        ImageBinaryType::UBoot,
        None,
        None,
    );
    assert_eq!(refused.err(), Some("Either web_path or local_path must be provided."));
}

#[test]
fn binary_keeps_what_it_is_given() {
    let made = ImageBinary::new(
        "boot.ext4".to_string(),
        Some("https://mirror/boot.ext4".to_string()),
        None,
        ImageBinaryType::Boot,
        Some("MD5".to_string()),
        Some("abc".to_string()),
    )
    .unwrap();
    assert_eq!(made.name, "boot.ext4");
    assert_eq!(made.web_path.as_deref(), Some("https://mirror/boot.ext4"));
    assert_eq!(made.local_path, None);
    assert_eq!(made.binary_type, ImageBinaryType::Boot);
    assert_eq!(made.hash_type.as_deref(), Some("MD5"));
    assert_eq!(made.hash_value.as_deref(), Some("abc"));
    let local = ImageBinary::new(
        "x".to_string(),
        None,
        Some("/tmp/x".to_string()),
        ImageBinaryType::Other("x".to_string()),
        None,
        None,
    )
    .unwrap();
    assert_eq!(local.local_path.as_deref(), Some("/tmp/x"));
    assert_eq!(local.web_path, None);
}

#[test]
fn binary_from_a_link() {
    let made = ImageBinary::try_from_hashmap(
        &link(Some("u-boot-with-spl-lpi4a.bin"), Some("u-boot-with-spl-lpi4a.bin")),
        &"https://mirror/20250323".to_string(),
    )
    .unwrap();
    assert_eq!(made.name, "u-boot-with-spl-lpi4a.bin");
    assert_eq!(made.web_path.as_deref(), Some("https://mirror/20250323/u-boot-with-spl-lpi4a.bin"));
    assert_eq!(made.local_path, None);
    assert_eq!(made.binary_type, ImageBinaryType::UBoot);
    assert_eq!(made.hash_type, None);
    assert_eq!(made.hash_value, None);
}

#[test]
fn kind_of_binary_goes_by_the_address() {
    let kind = |address: &str| {
        ImageBinary::try_from_hashmap(&link(Some("n"), Some(address)), &"b".to_string())
            .unwrap()
            .binary_type
    };
    assert_eq!(kind("u-boot-with-spl.bin"), ImageBinaryType::UBoot);
    assert_eq!(kind("boot-lpi4a-20250323_154524.ext4.zst"), ImageBinaryType::Boot);
    assert_eq!(kind("root-lpi4a-20250323_154524.ext4.zst"), ImageBinaryType::Root);
    assert_eq!(kind("sdcard-lpi4a.img.zst"), ImageBinaryType::Sdcard);
    assert_eq!(kind("README.txt"), ImageBinaryType::Other("README.txt".to_string()));
    // `u-boot` anywhere counts before `boot` at the start and `root` anywhere.
    assert_eq!(kind("boot-u-boot.bin"), ImageBinaryType::UBoot);
    assert_eq!(kind("bootroot"), ImageBinaryType::Boot);
    // `boot` counts only at the start.
    assert_eq!(kind("my-boot.img"), ImageBinaryType::Other("my-boot.img".to_string()));
    assert_eq!(kind("chroot.tar"), ImageBinaryType::Root);
    assert_eq!(kind("root-sdcard"), ImageBinaryType::Root);
    assert_eq!(kind(""), ImageBinaryType::Other(String::new()));
}

#[test]
fn link_without_address_or_name_is_no_binary() {
    let base = "https://mirror".to_string();
    assert_eq!(
        ImageBinary::try_from_hashmap(&link(Some("n"), None), &base).err(),
        Some("Web path not found")
    );
    assert_eq!(
        ImageBinary::try_from_hashmap(&link(None, None), &base).err(),
        Some("Web path not found")
    );
    assert_eq!(
        ImageBinary::try_from_hashmap(&link(None, Some("boot.img")), &base).err(),
        Some("Name not found")
    );
}

#[test]
fn local_path_drops_zst() {
    let parts = |binary: &str| ImageVariant::get_local_path(&"variant".to_string(), &binary.to_string());
    assert_eq!(parts("boot.ext4.zst"), vec!["revyos-imager", "variant", "boot.ext4"]);
    assert_eq!(parts("u-boot.bin"), vec!["revyos-imager", "variant", "u-boot.bin"]);
    assert_eq!(parts("a.zst.zst"), vec!["revyos-imager", "variant", "a"]);
    assert_eq!(parts(".zst"), vec!["revyos-imager", "variant", ""]);
    assert_eq!(parts("a.zst.img"), vec!["revyos-imager", "variant", "a.zst.img"]);
    assert_eq!(ImageVariant::cache_dir_name(), "revyos-imager");
}

#[test]
fn zstd_is_told_by_its_magic() {
    assert!(ImageVariant::check_zst_file(&[0x28, 0xb5, 0x2f, 0xfd]));
    assert!(!ImageVariant::check_zst_file(&[0x28, 0xb5, 0x2f, 0xfc]));
    assert!(!ImageVariant::check_zst_file(&[0xfd, 0x2f, 0xb5, 0x28]));
    assert!(!ImageVariant::check_zst_file(&[0, 0, 0, 0]));
}

#[test]
fn variant_takes_local_paths_from_what_was_found() {
    let files = vec![
        binary("root.ext4", Some("w/root"), Some("/stale"), ImageBinaryType::Root),
        binary("boot.ext4", Some("w/boot"), None, ImageBinaryType::Boot),
        binary("u-boot.bin", Some("w/uboot"), Some("/stale"), ImageBinaryType::UBoot),
    ];
    let variant = ImageVariant::new(
        "lpi4a".to_string(),
        files,
        vec![Some("/tmp/revyos-imager/lpi4a/root.ext4".to_string()), None],
    );
    assert_eq!(variant.name, "lpi4a");
    assert_eq!(variant.image_binarys.len(), 3);
    let local: Vec<_> = variant.image_binarys.iter().map(|b| b.local_path.as_deref()).collect();
    assert_eq!(local, vec![Some("/tmp/revyos-imager/lpi4a/root.ext4"), None, None]);
    let names: Vec<_> = variant.image_binarys.iter().map(|b| b.name.as_str()).collect();
    assert_eq!(names, vec!["root.ext4", "boot.ext4", "u-boot.bin"]);
    let web: Vec<_> = variant.image_binarys.iter().map(|b| b.web_path.as_deref()).collect();
    assert_eq!(web, vec![Some("w/root"), Some("w/boot"), Some("w/uboot")]);
    assert_eq!(variant.image_binarys[2].binary_type, ImageBinaryType::UBoot);
    assert_eq!(variant.image_binarys[0].hash_type.as_deref(), Some("SHA256"));
}

#[test]
fn binary_is_fetched_from_disk_before_the_mirror() {
    assert_eq!(
        binary("a", Some("w"), Some("/l"), ImageBinaryType::Boot).fetch(),
        Fetch::Local("/l".to_string())
    );
    assert_eq!(binary("a", None, Some("/l"), ImageBinaryType::Boot).fetch(), Fetch::Local("/l".to_string()));
    assert_eq!(binary("a", Some("w"), None, ImageBinaryType::Boot).fetch(), Fetch::Web("w".to_string()));
    assert_eq!(
        binary("u-boot.bin", None, None, ImageBinaryType::UBoot).fetch(),
        Fetch::Nowhere("No web path or local path for binary: u-boot.bin".to_string())
    );
}

#[test]
fn stored_binary_knows_its_path() {
    let mut file = binary("a", Some("w"), None, ImageBinaryType::Boot);
    file.stored_at("/tmp/a".to_string());
    assert_eq!(file.local_path.as_deref(), Some("/tmp/a"));
    assert_eq!(file.web_path.as_deref(), Some("w"));
    assert_eq!(file.name, "a");
}

#[test]
fn clone_of_a_binary_is_the_same_binary() {
    let file = binary("a", Some("w"), Some("/l"), ImageBinaryType::Other("p".to_string()));
    let copy = file.clone();
    assert_eq!(format!("{file:?}"), format!("{copy:?}"));
}

#[test]
fn progress_counts_bytes() {
    let mut download = Progress::download(5);
    assert_eq!(download, Progress { kind: ProgressType::Download, current: 0, total: 5 });
    download.advance(2);
    download.advance(3);
    assert_eq!(download, Progress { kind: ProgressType::Download, current: 5, total: 5 });
    let mut extract = Progress::extract(1000);
    assert_eq!(extract, Progress { kind: ProgressType::Extract, current: 0, total: 3000 });
    extract.advance(1 << 20);
    assert_eq!(extract.current, 1 << 20);
    assert_eq!(Progress::extract(u64::MAX / 3).total, u64::MAX);
}

#[test]
fn version_holds_its_variants() {
    let version = ImageVersion {
        version: "20250323".to_string(),
        image_variants: vec![ImageVariant::new("v".to_string(), vec![], vec![])],
    };
    assert_eq!(version.version, "20250323");
    assert_eq!(version.image_variants[0].name, "v");
    assert!(version.image_variants[0].image_binarys.is_empty());
    assert_ne!(ImageBinaryHashError::Mismatch, ImageBinaryHashError::HashTypeNotFound);
    assert_ne!(ImageBinaryHashError::HashValueNotFound, ImageBinaryHashError::HashTypeNotFound);
}

#[test]
fn later_entry_of_a_map_counts() {
    let mut map = StringMap::new();
    assert_eq!(map.get("name"), None);
    map.insert("name".to_string(), "a".to_string());
    map.insert("address".to_string(), "b".to_string());
    map.insert("name".to_string(), "c".to_string());
    assert_eq!(map.get("name"), Some(&"c".to_string()));
    assert_eq!(map.get("address"), Some(&"b".to_string()));
    assert_eq!(map.get("nam"), None);
    let copy = map.clone();
    assert_eq!(copy.get("name"), Some(&"c".to_string()));
    assert_eq!(copy.get("address"), Some(&"b".to_string()));
}
