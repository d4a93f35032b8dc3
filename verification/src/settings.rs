//! The settings shared by the GUI and the receiving service.

use vstd::prelude::*;

verus! {

/// The language of the interface.
#[derive(Clone, Copy, Debug, PartialEq, Eq, Structural)]
pub enum InterfaceLanguage {
    TraditionalChinese,
    Japanese,
    English,
}

impl Default for InterfaceLanguage {
    /// Traditional Chinese.
    fn default() -> (r: Self)
        ensures
            r == InterfaceLanguage::TraditionalChinese,
    {
        InterfaceLanguage::TraditionalChinese
    }
}

/// The value that a missing on/off setting takes: on.
pub fn default_true() -> (r: bool)
    ensures
        r,
{
    true
}

/// The user's settings.
#[derive(Clone, Debug)]
pub struct HirodropSettings {
    pub display_name: String,
    pub download_directory: String,
    pub start_receiving_on_launch: bool,
    pub show_notifications: bool,
    pub show_transfer_details: bool,
    pub auto_show_qr: bool,
    pub retry_failed_once: bool,
    pub language: InterfaceLanguage,
    pub trusted_fingerprints: Vec<String>,
}

impl HirodropSettings {
    /// The settings a new user starts with, for a device name and a download
    /// directory: every option on, Traditional Chinese, no trusted device.
    pub fn with_defaults(display_name: String, download_directory: String) -> (r: Self)
        ensures
            r.display_name == display_name,
            r.download_directory == download_directory,
            r.start_receiving_on_launch,
            r.show_notifications,
            r.show_transfer_details,
            r.auto_show_qr,
            r.retry_failed_once,
            r.language == InterfaceLanguage::TraditionalChinese,
            r.trusted_fingerprints@.len() == 0,
    {
        HirodropSettings {
            display_name,
            download_directory,
            start_receiving_on_launch: default_true(),
            show_notifications: default_true(),
            show_transfer_details: default_true(),
            auto_show_qr: default_true(),
            retry_failed_once: default_true(),
            language: InterfaceLanguage::default(),
            trusted_fingerprints: Vec::new(),
        }
    }
}

} // verus!
