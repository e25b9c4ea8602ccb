//! The user's preferences and the values they start from.

use crate::store::optional_chars;
use crate::text::views;
use vstd::prelude::*;

verus! {

/// The preferences of one user.
#[derive(Debug, PartialEq, Eq)]
pub struct Prefs {
    pub default_method: String,
    pub auto_clear_seconds: u32,
    pub mask_sensitive: bool,
    pub autosave_quick: bool,
    pub pinned_ids: Vec<String>,
    pub active_fingerprint: Option<String>,
    pub lang: String,
    pub block_while_captured: bool,
    pub show_postfix_in_list: bool,
    pub viewer_prompt_timeout_seconds: u32,
    pub output_clear_seconds: u32,
    pub copy_on_console_generate: bool,
    pub hold_only_reveal: bool,
    pub clear_clipboard_on_blur: bool,
}

/// What preferences hold, as plain values.
pub struct PrefsView {
    pub default_method: Seq<char>,
    pub auto_clear_seconds: u32,
    pub mask_sensitive: bool,
    pub autosave_quick: bool,
    pub pinned_ids: Seq<Seq<char>>,
    pub active_fingerprint: Option<Seq<char>>,
    pub lang: Seq<char>,
    pub block_while_captured: bool,
    pub show_postfix_in_list: bool,
    pub viewer_prompt_timeout_seconds: u32,
    pub output_clear_seconds: u32,
    pub copy_on_console_generate: bool,
    pub hold_only_reveal: bool,
    pub clear_clipboard_on_blur: bool,
}

impl View for Prefs {
    type V = PrefsView;

    open spec fn view(&self) -> PrefsView {
        PrefsView {
            default_method: self.default_method@,
            auto_clear_seconds: self.auto_clear_seconds,
            mask_sensitive: self.mask_sensitive,
            autosave_quick: self.autosave_quick,
            pinned_ids: views(self.pinned_ids@),
            active_fingerprint: optional_chars(self.active_fingerprint),
            lang: self.lang@,
            block_while_captured: self.block_while_captured,
            show_postfix_in_list: self.show_postfix_in_list,
            viewer_prompt_timeout_seconds: self.viewer_prompt_timeout_seconds,
            output_clear_seconds: self.output_clear_seconds,
            copy_on_console_generate: self.copy_on_console_generate,
            hold_only_reveal: self.hold_only_reveal,
            clear_clipboard_on_blur: self.clear_clipboard_on_blur,
        }
    }
}

/// The changes a user asks for: each preference that is named gets its new
/// value, the others stay. The active fingerprint is not changed this way.
#[derive(Debug, PartialEq, Eq)]
pub struct PrefsUpdate {
    pub default_method: Option<String>,
    pub auto_clear_seconds: Option<u32>,
    pub mask_sensitive: Option<bool>,
    pub autosave_quick: Option<bool>,
    pub pinned_ids: Option<Vec<String>>,
    pub lang: Option<String>,
    pub block_while_captured: Option<bool>,
    pub show_postfix_in_list: Option<bool>,
    pub viewer_prompt_timeout_seconds: Option<u32>,
    pub output_clear_seconds: Option<u32>,
    pub copy_on_console_generate: Option<bool>,
    pub hold_only_reveal: Option<bool>,
    pub clear_clipboard_on_blur: Option<bool>,
}

/// The preferences of a user who has set none.
pub open spec fn default_prefs() -> PrefsView {
    PrefsView {
        default_method: "len36_strong"@,
        auto_clear_seconds: 30,
        mask_sensitive: false,
        autosave_quick: false,
        pinned_ids: Seq::empty(),
        active_fingerprint: None,
        lang: "en"@,
        block_while_captured: true,
        show_postfix_in_list: false,
        viewer_prompt_timeout_seconds: 30,
        output_clear_seconds: 60,
        copy_on_console_generate: false,
        hold_only_reveal: false,
        clear_clipboard_on_blur: false,
    }
}

/// `new` where it is given, `old` otherwise.
pub open spec fn or_old<T>(new: Option<T>, old: T) -> T {
    match new {
        Some(v) => v,
        None => old,
    }
}

/// The preferences after an update.
pub open spec fn updated(p: PrefsView, u: PrefsUpdate) -> PrefsView {
    PrefsView {
        default_method: or_old(optional_chars(u.default_method), p.default_method),
        auto_clear_seconds: or_old(u.auto_clear_seconds, p.auto_clear_seconds),
        mask_sensitive: or_old(u.mask_sensitive, p.mask_sensitive),
        autosave_quick: or_old(u.autosave_quick, p.autosave_quick),
        pinned_ids: match u.pinned_ids {
            Some(ids) => views(ids@),
            None => p.pinned_ids,
        },
        active_fingerprint: p.active_fingerprint,
        lang: or_old(optional_chars(u.lang), p.lang),
        block_while_captured: or_old(u.block_while_captured, p.block_while_captured),
        show_postfix_in_list: or_old(u.show_postfix_in_list, p.show_postfix_in_list),
        viewer_prompt_timeout_seconds: or_old(
            u.viewer_prompt_timeout_seconds,
            p.viewer_prompt_timeout_seconds,
        ),
        output_clear_seconds: or_old(u.output_clear_seconds, p.output_clear_seconds),
        copy_on_console_generate: or_old(u.copy_on_console_generate, p.copy_on_console_generate),
        hold_only_reveal: or_old(u.hold_only_reveal, p.hold_only_reveal),
        clear_clipboard_on_blur: or_old(u.clear_clipboard_on_blur, p.clear_clipboard_on_blur),
    }
}

/// The language of a user who has set none.
pub fn default_lang() -> (lang: String)
    ensures
        lang@ == "en"@,
{
    "en".to_owned()
}

/// The value of a switch that is on unless the user turns it off.
pub fn default_true() -> (on: bool)
    ensures
        on,
{
    true
}

/// The seconds after which the prompt for the viewer password closes.
pub fn default_viewer_prompt_secs() -> (secs: u32)
    ensures
        secs == 30,
{
    30
}

/// The seconds after which a shown credential is cleared.
pub fn default_output_clear_secs() -> (secs: u32)
    ensures
        secs == 60,
{
    60
}

/// The preferences in force: the stored ones, or the defaults where none
/// are stored or they cannot be read.
pub fn read_prefs(stored: Option<Prefs>) -> (p: Prefs)
    ensures
        p@ == match stored {
            Some(s) => s@,
            None => default_prefs(),
        },
{
    match stored {
        Some(s) => s,
        None => {
            let pinned: Vec<String> = Vec::new();
            assert(views(pinned@) =~= Seq::<Seq<char>>::empty());
            Prefs {
                default_method: "len36_strong".to_owned(),
                auto_clear_seconds: 30,
                mask_sensitive: false,
                autosave_quick: false,
                pinned_ids: pinned,
                active_fingerprint: None,
                lang: default_lang(),
                block_while_captured: default_true(),
                show_postfix_in_list: false,
                viewer_prompt_timeout_seconds: default_viewer_prompt_secs(),
                output_clear_seconds: default_output_clear_secs(),
                copy_on_console_generate: false,
                hold_only_reveal: false,
                clear_clipboard_on_blur: false,
            }
        },
    }
}

/// `new` where it is given, `old` otherwise.
pub fn or_keep<T>(new: Option<T>, old: T) -> (r: T)
    ensures
        r == or_old(new, old),
{
    match new {
        Some(v) => v,
        None => old,
    }
}

/// Applies an update to the preferences.
pub fn set_prefs(p: Prefs, update: PrefsUpdate) -> (r: Prefs)
    ensures
        r@ == updated(p@, update),
{
    Prefs {
        default_method: or_keep(update.default_method, p.default_method),
        auto_clear_seconds: or_keep(update.auto_clear_seconds, p.auto_clear_seconds),
        mask_sensitive: or_keep(update.mask_sensitive, p.mask_sensitive),
        autosave_quick: or_keep(update.autosave_quick, p.autosave_quick),
        pinned_ids: or_keep(update.pinned_ids, p.pinned_ids),
        active_fingerprint: p.active_fingerprint,
        lang: or_keep(update.lang, p.lang),
        block_while_captured: or_keep(update.block_while_captured, p.block_while_captured),
        show_postfix_in_list: or_keep(update.show_postfix_in_list, p.show_postfix_in_list),
        viewer_prompt_timeout_seconds: or_keep(
            update.viewer_prompt_timeout_seconds,
            p.viewer_prompt_timeout_seconds,
        ),
        output_clear_seconds: or_keep(update.output_clear_seconds, p.output_clear_seconds),
        copy_on_console_generate: or_keep(
            update.copy_on_console_generate,
            p.copy_on_console_generate,
        ),
        hold_only_reveal: or_keep(update.hold_only_reveal, p.hold_only_reveal),
        clear_clipboard_on_blur: or_keep(update.clear_clipboard_on_blur, p.clear_clipboard_on_blur),
    }
}

} // verus!
