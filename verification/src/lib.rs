//! Verified core of Java Service Steward: configuration parsing, the local
//! control protocol, log formatting and filtering, Java command construction
//! and the supervision decisions.
use vstd::prelude::*;

pub mod cli;
pub mod codec;
pub mod config;
pub mod diagnostics;
pub mod error;
pub mod filter;
pub mod glob;
pub mod heap_dump;
pub mod jvm;
pub mod loader;
pub mod logging;
pub mod paths;
pub mod protocol;
pub mod service;
pub mod supervisor;
pub mod syntax;
pub mod table;
pub mod telemetry;
pub mod text;

verus! {

pub const PRODUCT_NAME: &'static str = "Java Service Steward";

pub const PRODUCT_DESCRIPTION: &'static str = "Runs, controls, and monitors Java applications as Windows services.";

pub const CONFIG_FORMAT_NOTE: &'static str = "Reads wrapper.conf-style configuration files.";

pub const PRODUCT_VERSION: &'static str = "0.3.2";

/// Terms that must never appear in the product's own output (banners, help
/// text, log records): the name of the company behind the Java Service
/// Wrapper, whose configuration format this product reads, its
/// documentation host, and its version series.
pub fn foreign_name_markers() -> (r: Vec<&'static str>)
    ensures
        r@.map_values(|s: &str| s@) == seq!["Tanuki"@, "tanukisoftware.com"@, "3.5."@],
{
    let r = vec!["Tanuki", "tanukisoftware.com", "3.5."];
    assert(r@.map_values(|s: &str| s@) =~= seq!["Tanuki"@, "tanukisoftware.com"@, "3.5."@]);
    r
}

pub open spec fn architecture() -> Seq<char> {
    if usize::BITS == 64 {
        "64-bit"@
    } else {
        "32-bit"@
    }
}

/// `64-bit` or `32-bit`, after the width of a pointer.
pub fn product_architecture() -> (r: &'static str)
    ensures
        r@ == architecture(),
{
    if usize::BITS == 64 {
        "64-bit"
    } else {
        "32-bit"
    }
}

pub open spec fn banner() -> Seq<char> {
    PRODUCT_NAME@ + " "@ + architecture() + " "@ + PRODUCT_VERSION@
}

/// First line of `--version`, `--help` and every log file.
pub fn product_banner() -> (r: String)
    ensures
        r@ == banner(),
{
    let mut out: Vec<char> = crate::text::chars_of(PRODUCT_NAME);
    crate::text::append_str(&mut out, " ");
    crate::text::append_str(&mut out, product_architecture());
    crate::text::append_str(&mut out, " ");
    crate::text::append_str(&mut out, PRODUCT_VERSION);
    crate::text::string_of(&out)
}

/// Complete `--version` output: banner, description and configuration note,
/// each on a line of its own.
pub fn version_text() -> (r: String)
    ensures
        r@ == banner() + "\n"@ + PRODUCT_DESCRIPTION@ + "\n"@ + CONFIG_FORMAT_NOTE@ + "\n"@,
{
    let b = product_banner();
    let mut out: Vec<char> = crate::text::chars_of(b.as_str());
    crate::text::append_str(&mut out, "\n");
    crate::text::append_str(&mut out, PRODUCT_DESCRIPTION);
    crate::text::append_str(&mut out, "\n");
    crate::text::append_str(&mut out, CONFIG_FORMAT_NOTE);
    crate::text::append_str(&mut out, "\n");
    crate::text::string_of(&out)
}

}
