//! What the commands of the user interface hand back: progress as it is
//! sent to the interface, and the sentence that ends each command.

use vstd::prelude::*;

verus! {

/// Progress of a transfer to the device, as the interface receives it.
#[derive(Clone, Copy, Debug, PartialEq, Eq, Structural)]
pub enum UploadProgressEvent {
    /// `current` of `total` units are on the partition.
    Progress { current: u64, total: u64 },
}

/// Progress of a download, as the interface receives it.
#[derive(Clone, Debug, PartialEq, Eq)]
pub struct DownloadProgressPayload {
    pub filename: String,
    pub current: u64,
    pub total: u64,
}

impl DownloadProgressPayload {
    /// The progress of the download of `filename`: `current` of `total`
    /// bytes.
    pub fn new(filename: &str, current: u64, total: u64) -> (r: Self)
        ensures
            r.filename@ == filename@,
            r.current == current,
            r.total == total,
    {
        DownloadProgressPayload { filename: String::from_str(filename), current, total }
    }
}

/// The name of a device, or `Unknown` for one that gives none.
fn product_or_unknown(product: Option<&str>) -> (r: &str)
    ensures
        r@ == match product {
            Some(name) => name@,
            None => "Unknown"@,
        },
{
    match product {
        Some(name) => name,
        None => "Unknown",
    }
}

/// What is said once a device is connected. A device without a name is
/// called `Unknown`.
pub fn connected_message(product: Option<&str>) -> (r: String)
    ensures
        r@ == "Successfully connected to device: "@ + match product {
            Some(name) => name@,
            None => "Unknown"@,
        },
{
    let mut message = String::from_str("Successfully connected to device: ");
    message.append(product_or_unknown(product));
    message
}

/// What is said once a device has been told to reboot.
pub fn rebooted_message() -> (r: String)
    ensures
        r@ == "Rebooted device."@,
{
    String::from_str("Rebooted device.")
}

/// What is said when the file to flash is not there.
pub fn file_not_found_message(file_path: &str) -> (r: String)
    ensures
        r@ == "File not found: "@ + file_path@,
{
    let mut message = String::from_str("File not found: ");
    message.append(file_path);
    message
}

/// What is said once a file is on a partition of a device. A device without
/// a name is called `Unknown`.
pub fn flashed_message(partition: &str, product: Option<&str>) -> (r: String)
    ensures
        r@ == "Flashed file to partition "@ + partition@ + " on device: "@ + match product {
            Some(name) => name@,
            None => "Unknown"@,
        },
{
    let mut message = String::from_str("Flashed file to partition ");
    message.append(partition);
    message.append(" on device: ");
    message.append(product_or_unknown(product));
    message
}

/// What is said once all files of a variant are on disk.
pub fn downloaded_message(variant: &str) -> (r: String)
    ensures
        r@ == "Successfully downloaded all binaries for variant "@ + variant@,
{
    let mut message = String::from_str("Successfully downloaded all binaries for variant ");
    message.append(variant);
    message
}

/// What is said when a download has failed for `reason`.
pub fn download_failed_message(reason: &str) -> (r: String)
    ensures
        r@ == "Failed to download binaries: "@ + reason@,
{
    let mut message = String::from_str("Failed to download binaries: ");
    message.append(reason);
    message
}

} // verus!
