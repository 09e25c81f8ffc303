//! What the library takes from outside: from the machine it runs on, and
//! from functions of other crates whose results it does not compute itself.

use vstd::prelude::*;

verus! {

/// The present time in milliseconds since the Unix epoch, from chrono's
/// `Utc::now` and `DateTime::timestamp_millis`. Nothing is claimed of the
/// value: clocks differ and can be set. `Utc::now` does not return on a
/// machine whose clock is set before 1970.
#[verifier::external_body]
pub(crate) fn now_millis() -> i64 {
    chrono::Utc::now().timestamp_millis()
}

/// Whether `id` has the shape of a random identifier: version 4 in bits 76
/// to 79, the standard variant in bits 62 and 63.
pub open spec fn is_random_id(id: u128) -> bool {
    (id >> 76) & 0xf == 4 && (id >> 62) & 0x3 == 2
}

/// A fresh random identifier, from uuid's `Uuid::new_v4` and
/// `Uuid::as_u128`. The version and variant bits are the ones `new_v4` sets;
/// nothing is claimed of the other bits. `new_v4` does not return where the
/// system gives no random bytes.
#[verifier::external_body]
pub(crate) fn new_id() -> (id: u128)
    ensures
        is_random_id(id),
{
    uuid::Uuid::new_v4().as_u128()
}

/// The number of processors of this machine, from num_cpus' `get`. Nothing
/// is claimed of the value: not every path of `get` holds it above zero.
#[verifier::external_body]
pub(crate) fn cpu_count() -> usize {
    num_cpus::get()
}

/// The name of this machine, from gethostname's `gethostname`, with what
/// is no text in it replaced as `OsStr::to_string_lossy` does. Nothing is
/// claimed of the value. `gethostname` does not return where the system
/// refuses to tell the name.
#[verifier::external_body]
pub(crate) fn host_name() -> String {
    gethostname::gethostname().to_string_lossy().to_string()
}

/// The identifier that a text stands for, as uuid's `Uuid::parse_str`
/// reads it: 32 hexadecimal digits, plain, with hyphens, in braces or as a
/// URN; `None` for any other text.
pub uninterp spec fn parsed_id(text: Seq<char>) -> Option<u128>;

/// Reads an identifier with uuid's `Uuid::parse_str`, and takes its value
/// with `Uuid::as_u128`. The result is the one named by [`parsed_id`];
/// a text that `parse_str` refuses gives `None`.
#[verifier::external_body]
pub(crate) fn parse_id(text: &str) -> (id: Option<u128>)
    ensures
        id == parsed_id(text@),
{
    match uuid::Uuid::parse_str(text) {
        Ok(id) => Some(id.as_u128()),
        Err(_) => None,
    }
}

/// Whether this process runs as the superuser, from nix's `getuid` and
/// `Uid::is_root`. Nothing is claimed of the value.
#[verifier::external_body]
pub(crate) fn is_root() -> bool {
    nix::unistd::getuid().is_root()
}

/// `text` in lower case, as std's `str::to_lowercase` writes it.
pub uninterp spec fn lowercased(text: Seq<char>) -> Seq<char>;

/// `text` in lower case, from std's `str::to_lowercase`, which follows the
/// Unicode rules for every character. The result is the one named by
/// [`lowercased`].
#[verifier::external_body]
pub(crate) fn lowercase(text: &str) -> (lower: String)
    ensures
        lower@ == lowercased(text@),
{
    text.to_lowercase()
}

/// A path as a message shows it, the way std's `Debug` for `Path` writes
/// it: between double quotes, with quotes, backslashes and what does not
/// print written as escapes.
pub uninterp spec fn shown_path(path: Seq<char>) -> Seq<char>;

/// `path` as a message shows it, from std's `Debug` for `Path`, on the
/// path that `Path::new` makes of the text. The result is the one named by
/// [`shown_path`]: it depends on the characters of the path alone.
#[verifier::external_body]
pub(crate) fn show_path(path: &str) -> (shown: String)
    ensures
        shown@ == shown_path(path@),
{
    format!("{:?}", std::path::Path::new(path))
}

/// The present time as a stamp of the form `20240131_235959`, from
/// chrono's `Utc::now` and `DateTime::format` with `%Y%m%d_%H%M%S`. Nothing
/// is claimed of the value.
#[verifier::external_body]
pub(crate) fn time_stamp() -> String {
    chrono::Utc::now().format("%Y%m%d_%H%M%S").to_string()
}

} // verus!
