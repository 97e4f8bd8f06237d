//! Images as the mirror offers them: the files of an image, the variants
//! that they make up, and the versions of those.

use crate::string_map::StringMap;
use crate::text::{
    begins_with, contains, ends_with, holds, starts_with, trim_end_matches, without_suffix,
};
use vstd::prelude::*;

verus! {

/// What a progress figure counts.
#[derive(Clone, Copy, Debug, PartialEq, Eq, Structural)]
pub enum ProgressType {
    Download,
    Extract,
}

/// What a file of an image is for.
#[derive(Debug, PartialEq, Eq)]
pub enum ImageBinaryType {
    UBoot,
    Boot,
    Root,
    Sdcard,
    /// Another file; the string names the partition that it goes to.
    Other(String),
}

/// One file of an image, on the mirror or on disk.
#[derive(Debug)]
pub struct ImageBinary {
    /// The file's name, such as `u-boot.bin` or `boot.img`.
    pub name: String,
    pub web_path: Option<String>,
    pub local_path: Option<String>,
    pub binary_type: ImageBinaryType,
    /// The kind of hash that `hash_value` is, such as SHA256 or MD5.
    pub hash_type: Option<String>,
    pub hash_value: Option<String>,
}

/// Why the hash of a file could not be confirmed.
#[derive(Clone, Copy, Debug, PartialEq, Eq, Structural)]
pub enum ImageBinaryHashError {
    HashTypeNotFound,
    HashValueNotFound,
    Mismatch,
}

/// The files that are flashed together.
#[derive(Clone, Debug)]
pub struct ImageVariant {
    pub name: String,
    pub image_binarys: Vec<ImageBinary>,
}

/// The variants of one release.
#[derive(Clone, Debug)]
pub struct ImageVersion {
    pub version: String,
    pub image_variants: Vec<ImageVariant>,
}

/// What a file is for, as contracts speak of it.
pub enum BinaryKind {
    UBoot,
    Boot,
    Root,
    Sdcard,
    Other(Seq<char>),
}

impl View for ImageBinaryType {
    type V = BinaryKind;

    open spec fn view(&self) -> BinaryKind {
        match *self {
            ImageBinaryType::UBoot => BinaryKind::UBoot,
            ImageBinaryType::Boot => BinaryKind::Boot,
            ImageBinaryType::Root => BinaryKind::Root,
            ImageBinaryType::Sdcard => BinaryKind::Sdcard,
            ImageBinaryType::Other(partition) => BinaryKind::Other(partition@),
        }
    }
}

/// A string that may be missing, as contracts speak of it.
pub open spec fn text_of(s: Option<String>) -> Option<Seq<char>> {
    match s {
        Some(s) => Some(s@),
        None => None,
    }
}

/// A file of an image, as contracts speak of it.
pub struct BinaryView {
    pub name: Seq<char>,
    pub web_path: Option<Seq<char>>,
    pub local_path: Option<Seq<char>>,
    pub binary_type: BinaryKind,
    pub hash_type: Option<Seq<char>>,
    pub hash_value: Option<Seq<char>>,
}

impl View for ImageBinary {
    type V = BinaryView;

    open spec fn view(&self) -> BinaryView {
        BinaryView {
            name: self.name@,
            web_path: text_of(self.web_path),
            local_path: text_of(self.local_path),
            binary_type: self.binary_type@,
            hash_type: text_of(self.hash_type),
            hash_value: text_of(self.hash_value),
        }
    }
}

/// What a file is for, going by its address on the mirror: the first of
/// `u-boot` in it, `boot` at its start, `root` in it and `sdcard` in it
/// decides; an address with none of these is its own partition.
pub open spec fn kind_of_address(address: Seq<char>) -> BinaryKind {
    if holds(address, "u-boot"@) {
        BinaryKind::UBoot
    } else if begins_with(address, "boot"@) {
        BinaryKind::Boot
    } else if holds(address, "root"@) {
        BinaryKind::Root
    } else if holds(address, "sdcard"@) {
        BinaryKind::Sdcard
    } else {
        BinaryKind::Other(address)
    }
}

/// The file that a link of a directory listing below `base_url` stands
/// for, or what is missing of the link.
pub open spec fn binary_of_link(
    link: Map<Seq<char>, Seq<char>>,
    base_url: Seq<char>,
) -> Result<BinaryView, Seq<char>> {
    if !link.contains_key("address"@) {
        Err("Web path not found"@)
    } else if !link.contains_key("name"@) {
        Err("Name not found"@)
    } else {
        Ok(
            BinaryView {
                name: link["name"@],
                web_path: Some(base_url + "/"@ + link["address"@]),
                local_path: None,
                binary_type: kind_of_address(link["address"@]),
                hash_type: None,
                hash_value: None,
            },
        )
    }
}

/// What a function that makes a file or says why not has come to, as
/// contracts speak of it.
pub open spec fn outcome(r: Result<ImageBinary, &'static str>) -> Result<BinaryView, Seq<char>> {
    match r {
        Ok(binary) => Ok(binary@),
        Err(message) => Err(message@),
    }
}

impl ImageBinary {
    /// A file that is on the mirror, on disk, or both. One that is nowhere
    /// is refused.
    pub fn new(
        name: String,
        web_path: Option<String>,
        local_path: Option<String>,
        binary_type: ImageBinaryType,
        hash_type: Option<String>,
        hash_value: Option<String>,
    ) -> (r: Result<Self, &'static str>)
        ensures
            r is Err <==> web_path is None && local_path is None,
            r matches Err(message) ==> message@
                == "Either web_path or local_path must be provided."@,
            r matches Ok(binary) ==> binary == (ImageBinary {
                name,
                web_path,
                local_path,
                binary_type,
                hash_type,
                hash_value,
            }),
    {
        if web_path.is_none() && local_path.is_none() {
            return Err("Either web_path or local_path must be provided.");
        }
        Ok(ImageBinary { name, web_path, local_path, binary_type, hash_type, hash_value })
    }

    /// The file that a link of a directory listing stands for: the link's
    /// `name` is the file's name, and its `address`, behind `base_url` and
    /// a slash, is where the file is on the mirror. What the file is for
    /// goes by the address.
    pub fn try_from_hashmap(map: &StringMap, base_url: &String) -> (r: Result<
        Self,
        &'static str,
    >)
        ensures
            outcome(r) == binary_of_link(map@, base_url@),
    {
        let web_path = match map.get("address") {
            Some(address) => address.clone(),
            None => {
                return Err("Web path not found");
            },
        };
        let name = match map.get("name") {
            Some(name) => name.clone(),
            None => {
                return Err("Name not found");
            },
        };
        let binary_type = if contains(web_path.as_str(), "u-boot") {
            ImageBinaryType::UBoot
        } else if starts_with(web_path.as_str(), "boot") {
            ImageBinaryType::Boot
        } else if contains(web_path.as_str(), "root") {
            ImageBinaryType::Root
        } else if contains(web_path.as_str(), "sdcard") {
            ImageBinaryType::Sdcard
        } else {
            ImageBinaryType::Other(web_path.clone())
        };
        let mut url = base_url.clone();
        url.append("/");
        url.append(web_path.as_str());
        Self::new(name, Some(url), None, binary_type, None, None)
    }
}

/// Where a file of an image is to be had.
#[derive(Clone, Debug, PartialEq, Eq)]
pub enum Fetch {
    /// On disk, at this path: nothing is downloaded.
    Local(String),
    /// On the mirror, at this address.
    Web(String),
    /// Nowhere; the string says so of the file, for the user.
    Nowhere(String),
}

/// Where a file is to be had, as contracts speak of it.
pub enum FetchView {
    Local(Seq<char>),
    Web(Seq<char>),
    Nowhere(Seq<char>),
}

impl View for Fetch {
    type V = FetchView;

    open spec fn view(&self) -> FetchView {
        match *self {
            Fetch::Local(path) => FetchView::Local(path@),
            Fetch::Web(address) => FetchView::Web(address@),
            Fetch::Nowhere(message) => FetchView::Nowhere(message@),
        }
    }
}

impl ImageBinary {
    /// Where the file is to be had: on disk where it is there, else on the
    /// mirror.
    pub fn fetch(&self) -> (r: Fetch)
        ensures
            r@ == match (self.local_path, self.web_path) {
                (Some(path), _) => FetchView::Local(path@),
                (None, Some(address)) => FetchView::Web(address@),
                (None, None) => FetchView::Nowhere(
                    "No web path or local path for binary: "@ + self.name@,
                ),
            },
    {
        match &self.local_path {
            Some(path) => Fetch::Local(path.clone()),
            None => match &self.web_path {
                Some(address) => Fetch::Web(address.clone()),
                None => {
                    let mut message = String::from_str("No web path or local path for binary: ");
                    message.append(self.name.as_str());
                    Fetch::Nowhere(message)
                },
            },
        }
    }
}

/// The first four bytes of a file that zstd has compressed.
pub open spec fn zst_magic() -> Seq<u8> {
    seq![0x28u8, 0xb5u8, 0x2fu8, 0xfdu8]
}

impl Clone for ImageBinaryType {
    fn clone(&self) -> (r: Self)
        ensures
            r@ == self@,
    {
        match self {
            ImageBinaryType::UBoot => ImageBinaryType::UBoot,
            ImageBinaryType::Boot => ImageBinaryType::Boot,
            ImageBinaryType::Root => ImageBinaryType::Root,
            ImageBinaryType::Sdcard => ImageBinaryType::Sdcard,
            ImageBinaryType::Other(partition) => ImageBinaryType::Other(partition.clone()),
        }
    }
}

impl Clone for ImageBinary {
    fn clone(&self) -> (r: Self)
        ensures
            r@ == self@,
    {
        ImageBinary {
            name: self.name.clone(),
            web_path: self.web_path.clone(),
            local_path: self.local_path.clone(),
            binary_type: self.binary_type.clone(),
            hash_type: self.hash_type.clone(),
            hash_value: self.hash_value.clone(),
        }
    }
}

/// A copy of `binary` that is on disk at `local_path`, or not on disk.
fn with_local_path(binary: &ImageBinary, local_path: Option<String>) -> (r: ImageBinary)
    ensures
        r@ == (BinaryView { local_path: text_of(local_path), ..binary@ }),
{
    let mut copy = binary.clone();
    copy.local_path = local_path;
    copy
}

impl ImageVariant {
    /// The directory, below the system's directory for temporary files, in
    /// which downloaded files are kept.
    pub fn cache_dir_name() -> (r: &'static str)
        ensures
            r@ == "revyos-imager"@,
    {
        "revyos-imager"
    }

    /// Where a file of the variant `name` is kept on disk, as the names
    /// that lead there from the system's directory for temporary files: the
    /// directory of downloads, that of the variant, and the file, which
    /// loses `.zst` at its end because it is kept unpacked.
    pub fn get_local_path(name: &String, binary_name: &String) -> (r: Vec<String>)
        ensures
            r@.len() == 3,
            r@[0]@ == "revyos-imager"@,
            r@[1]@ == name@,
            r@[2]@ == without_suffix(binary_name@, ".zst"@),
    {
        let file = if ends_with(binary_name.as_str(), ".zst") {
            String::from_str(trim_end_matches(binary_name.as_str(), ".zst"))
        } else {
            binary_name.clone()
        };
        let mut path: Vec<String> = Vec::new();
        path.push(String::from_str(Self::cache_dir_name()));
        path.push(name.clone());
        path.push(file);
        path
    }

    /// Tells from the first four bytes of a file whether zstd has
    /// compressed it.
    pub fn check_zst_file(head: &[u8; 4]) -> (r: bool)
        ensures
            r == (head@ == zst_magic()),
    {
        let r = head[0] == 0x28 && head[1] == 0xb5 && head[2] == 0x2f && head[3] == 0xfd;
        assert(r == (head@ =~= zst_magic()));
        r
    }

    /// The variant `name` of the files `image_binarys`, each taken to be on
    /// disk where `found` has a path for it and nowhere else: `found` holds,
    /// in the order of the files, the path of each that was found at its
    /// place on disk. A file that `found` does not reach counts as not
    /// found.
    pub fn new(name: String, image_binarys: Vec<ImageBinary>, found: Vec<Option<String>>) -> (r:
        Self)
        ensures
            r.name == name,
            r.image_binarys@.len() == image_binarys@.len(),
            forall|i: int|
                0 <= i < image_binarys@.len() ==> (#[trigger] r.image_binarys@[i])@ == (BinaryView {
                    local_path: if i < found@.len() {
                        text_of(found@[i])
                    } else {
                        None
                    },
                    ..image_binarys@[i]@
                }),
    {
        let mut binaries: Vec<ImageBinary> = Vec::new();
        let mut i: usize = 0;
        while i < image_binarys.len()
            invariant
                i <= image_binarys@.len(),
                binaries@.len() == i,
                forall|k: int|
                    0 <= k < i ==> (#[trigger] binaries@[k])@ == (BinaryView {
                        local_path: if k < found@.len() {
                            text_of(found@[k])
                        } else {
                            None
                        },
                        ..image_binarys@[k]@
                    }),
            decreases image_binarys@.len() - i,
        {
            let local_path = if i < found.len() {
                found[i].clone()
            } else {
                None
            };
            binaries.push(with_local_path(&image_binarys[i], local_path));
            i = i + 1;
        }
        ImageVariant { name, image_binarys: binaries }
    }
}

/// A variant, as contracts speak of it: its name and its files.
pub type VariantView = (Seq<char>, Seq<BinaryView>);

/// The files `binaries`, as contracts speak of them.
pub open spec fn binary_views(binaries: Seq<ImageBinary>) -> Seq<BinaryView> {
    binaries.map_values(|b: ImageBinary| b@)
}

impl View for ImageVariant {
    type V = VariantView;

    open spec fn view(&self) -> VariantView {
        (self.name@, binary_views(self.image_binarys@))
    }
}

/// How far a download or an extraction has come.
#[derive(Clone, Copy, Debug, PartialEq, Eq, Structural)]
pub struct Progress {
    pub kind: ProgressType,
    /// Bytes done.
    pub current: u64,
    /// Bytes in all, as far as that is known.
    pub total: u64,
}

impl Progress {
    /// A download of `total` bytes, of which none is there yet.
    pub fn download(total: u64) -> (r: Self)
        ensures
            r == (Progress { kind: ProgressType::Download, current: 0, total }),
    {
        Progress { kind: ProgressType::Download, current: 0, total }
    }

    /// The extraction of a compressed file of `compressed_size` bytes, of
    /// which nothing is extracted yet. How much will come out is not known
    /// beforehand: three times the compressed size is taken for it.
    pub fn extract(compressed_size: u64) -> (r: Self)
        requires
            compressed_size * 3 <= u64::MAX,
        ensures
            r == (Progress { kind: ProgressType::Extract, current: 0, total: (compressed_size * 3) as u64 }),
    {
        Progress { kind: ProgressType::Extract, current: 0, total: compressed_size * 3 }
    }

    /// Counts `bytes` more bytes as done.
    pub fn advance(&mut self, bytes: usize)
        requires
            old(self).current + bytes <= u64::MAX,
        ensures
            *final(self) == (Progress { current: (old(self).current + bytes) as u64, ..*old(self) }),
    {
        self.current = self.current + bytes as u64;
    }
}

impl ImageBinary {
    /// Notes that the file is on disk at `path`.
    pub fn stored_at(&mut self, path: String)
        ensures
            final(self)@ == (BinaryView { local_path: Some(path@), ..old(self)@ }),
    {
        self.local_path = Some(path);
    }
}

} // verus!
