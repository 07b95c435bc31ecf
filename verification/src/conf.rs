//! Configuration surface: the mail store format, tri-state toggles, the
//! signing settings and the per-account override blocks (every override
//! starts out unset).

use vstd::prelude::*;

use std::collections::HashMap;

verus! {

/// The on-disk mail store formats the configuration accepts.
#[derive(Debug, Clone, Copy, PartialEq, Eq, Structural)]
pub enum MailFormat {
    Maildir,
}

impl MailFormat {
    /// Parse a format name.  Only the three spellings of "maildir" are
    /// recognized; anything else is rejected before this is called.
    pub fn from_str(x: &str) -> (r: MailFormat)
        requires
            x@ == "maildir"@ || x@ == "Maildir"@ || x@ == "MailDir"@,
        ensures
            r == MailFormat::Maildir,
    {
        let _ = x;
        MailFormat::Maildir
    }
}

/// A config toggle that distinguishes "never set" from an explicit choice.
#[derive(Debug, Clone, Copy, PartialEq, Eq, Structural)]
pub enum ToggleFlag {
    Unset,
    Internal(bool),
    Disabled,
    Enabled,
    Ask,
}

/// The internal-default form of an unset toggle.
pub fn internal_value_false() -> (r: ToggleFlag)
    ensures
        r == ToggleFlag::Internal(false),
{
    ToggleFlag::Internal(false)
}

/// Key lookup may consult the local keyring.
pub const LOCATE_LOCAL: u8 = 1;

/// Key lookup may consult web key directories.
pub const LOCATE_WKD: u8 = 2;

/// The default remote key lookup mechanisms: local and WKD.
pub fn default_lookup_mechanism() -> (r: u8)
    ensures
        r == (LOCATE_LOCAL | LOCATE_WKD),
{
    LOCATE_LOCAL | LOCATE_WKD
}

/// Settings for digital signing and encryption.
#[derive(Debug, Clone)]
pub struct PGPSettings {
    /// Verify signed mail automatically.  Default: true.
    pub auto_verify_signatures: bool,
    /// Decrypt encrypted mail automatically.  Default: true.
    pub auto_decrypt: bool,
    /// Sign outgoing mail.  Default: false.
    pub auto_sign: bool,
    /// Encrypt outgoing mail.  Default: false.
    pub auto_encrypt: bool,
    pub sign_key: Option<String>,
    pub decrypt_key: Option<String>,
    pub encrypt_key: Option<String>,
    /// Allow remote key lookups.  Default: internally false.
    pub allow_remote_lookup: ToggleFlag,
    /// Remote lookup mechanisms.  Default: local and WKD.
    pub remote_lookup_mechanisms: u8,
}

impl Default for PGPSettings {
    fn default() -> (r: Self)
        ensures
            r.auto_verify_signatures,
            r.auto_decrypt,
            !r.auto_sign,
            !r.auto_encrypt,
            r.sign_key is None,
            r.decrypt_key is None,
            r.encrypt_key is None,
            r.allow_remote_lookup == ToggleFlag::Internal(false),
            r.remote_lookup_mechanisms == (LOCATE_LOCAL | LOCATE_WKD),
    {
        PGPSettings {
            auto_verify_signatures: true,
            auto_decrypt: true,
            auto_sign: false,
            auto_encrypt: false,
            sign_key: None,
            decrypt_key: None,
            encrypt_key: None,
            allow_remote_lookup: internal_value_false(),
            remote_lookup_mechanisms: default_lookup_mechanism(),
        }
    }
}

/// Pager overrides of one account; unset fields fall back to the globals.
#[derive(Debug, Clone)]
pub struct PagerSettingsOverride {
    pub pager_context: Option<usize>,
    pub pager_stop: Option<bool>,
    pub headers_sticky: Option<bool>,
    pub pager_ratio: Option<usize>,
    pub filter: Option<Option<String>>,
    pub html_filter: Option<Option<String>>,
    pub format_flowed: Option<bool>,
    pub split_long_lines: Option<bool>,
    pub minimum_width: Option<usize>,
    pub auto_choose_multipart_alternative: Option<ToggleFlag>,
    pub show_date_in_my_timezone: Option<ToggleFlag>,
    pub url_launcher: Option<Option<String>>,
}

impl Default for PagerSettingsOverride {
    fn default() -> (r: Self)
        ensures
            r.pager_context is None,
            r.pager_stop is None,
            r.headers_sticky is None,
            r.pager_ratio is None,
            r.filter is None,
            r.html_filter is None,
            r.format_flowed is None,
            r.split_long_lines is None,
            r.minimum_width is None,
            r.auto_choose_multipart_alternative is None,
            r.show_date_in_my_timezone is None,
            r.url_launcher is None,
    {
        PagerSettingsOverride {
            pager_context: None,
            pager_stop: None,
            headers_sticky: None,
            pager_ratio: None,
            filter: None,
            html_filter: None,
            format_flowed: None,
            split_long_lines: None,
            minimum_width: None,
            auto_choose_multipart_alternative: None,
            show_date_in_my_timezone: None,
            url_launcher: None,
        }
    }
}

/// Notification overrides of one account.
#[derive(Debug, Clone)]
pub struct NotificationsSettingsOverride {
    pub enable: Option<bool>,
    pub script: Option<Option<String>>,
    pub xbiff_file_path: Option<Option<String>>,
    pub play_sound: Option<ToggleFlag>,
    pub sound_file: Option<Option<String>>,
}

impl Default for NotificationsSettingsOverride {
    fn default() -> (r: Self)
        ensures
            r.enable is None,
            r.script is None,
            r.xbiff_file_path is None,
            r.play_sound is None,
            r.sound_file is None,
    {
        NotificationsSettingsOverride {
            enable: None,
            script: None,
            xbiff_file_path: None,
            play_sound: None,
            sound_file: None,
        }
    }
}

/// Composing overrides of one account.
#[derive(Debug, Clone)]
pub struct ComposingSettingsOverride {
    pub send_mail: Option<String>,
    pub editor_command: Option<Option<String>>,
    pub embed: Option<bool>,
    pub format_flowed: Option<bool>,
    pub insert_user_agent: Option<bool>,
    pub default_header_values: Option<Vec<(String, String)>>,
}

impl Default for ComposingSettingsOverride {
    fn default() -> (r: Self)
        ensures
            r.send_mail is None,
            r.editor_command is None,
            r.embed is None,
            r.format_flowed is None,
            r.insert_user_agent is None,
            r.default_header_values is None,
    {
        ComposingSettingsOverride {
            send_mail: None,
            editor_command: None,
            embed: None,
            format_flowed: None,
            insert_user_agent: None,
            default_header_values: None,
        }
    }
}

/// Tag display overrides of one account.
#[derive(Debug, Clone)]
pub struct TagsSettingsOverride {
    pub colors: Option<HashMap<u64, u32>>,
    pub ignore_tags: Option<Vec<u64>>,
}

impl Default for TagsSettingsOverride {
    fn default() -> (r: Self)
        ensures
            r.colors is None,
            r.ignore_tags is None,
    {
        TagsSettingsOverride { colors: None, ignore_tags: None }
    }
}

/// Signing and encryption overrides of one account.
#[derive(Debug, Clone)]
pub struct PGPSettingsOverride {
    pub auto_verify_signatures: Option<bool>,
    pub auto_decrypt: Option<bool>,
    pub auto_sign: Option<bool>,
    pub auto_encrypt: Option<bool>,
    pub sign_key: Option<Option<String>>,
    pub decrypt_key: Option<Option<String>>,
    pub encrypt_key: Option<Option<String>>,
    pub allow_remote_lookup: Option<ToggleFlag>,
    pub remote_lookup_mechanisms: Option<u8>,
}

impl Default for PGPSettingsOverride {
    fn default() -> (r: Self)
        ensures
            r.auto_verify_signatures is None,
            r.auto_decrypt is None,
            r.auto_sign is None,
            r.auto_encrypt is None,
            r.sign_key is None,
            r.decrypt_key is None,
            r.encrypt_key is None,
            r.allow_remote_lookup is None,
            r.remote_lookup_mechanisms is None,
    {
        PGPSettingsOverride {
            auto_verify_signatures: None,
            auto_decrypt: None,
            auto_sign: None,
            auto_encrypt: None,
            sign_key: None,
            decrypt_key: None,
            encrypt_key: None,
            allow_remote_lookup: None,
            remote_lookup_mechanisms: None,
        }
    }
}

} // verus!
