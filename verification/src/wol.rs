//! Wake-on-LAN: what a probe of the plugin's endpoint says about whether
//! the plugin is installed.

use vstd::prelude::*;
use vstd::utf8::encode_utf8;

use crate::text::{contains_bytes, has_part};

verus! {

/// What is known of the Wake-on-LAN plugin.
#[derive(Debug, PartialEq, Eq)]
pub struct PluginCheck {
    pub installed: bool,
    /// The plugin answers, but the API key is not allowed to use it.
    pub permission_error: bool,
    /// The failure of the probe, where it does not settle the question.
    pub error: Option<String>,
}

/// A [`PluginCheck`] as a mathematical value.
pub struct PluginCheckView {
    pub installed: bool,
    pub permission_error: bool,
    pub error: Option<Seq<char>>,
}

impl View for PluginCheck {
    type V = PluginCheckView;

    open spec fn view(&self) -> PluginCheckView {
        PluginCheckView {
            installed: self.installed,
            permission_error: self.permission_error,
            error: match self.error {
                Some(e) => Some(e@),
                None => None,
            },
        }
    }
}

/// Whether a failure mentions `word`.
pub open spec fn mentions(failure: Seq<char>, word: Seq<char>) -> bool {
    has_part(encode_utf8(failure), encode_utf8(word))
}

/// What a probe says about the plugin. An answer means it is installed.
/// A failure that speaks of 404 means it is not; one that speaks of 403
/// means it is installed but out of reach of the API key; any other leaves
/// the plugin counted as not installed, with the failure attached.
pub open spec fn plugin_state(failure: Option<Seq<char>>) -> PluginCheckView {
    match failure {
        None => PluginCheckView { installed: true, permission_error: false, error: None },
        Some(e) => if mentions(e, "404"@) || mentions(e, "API endpoint not found"@) {
            PluginCheckView { installed: false, permission_error: false, error: None }
        } else if mentions(e, "403"@) || mentions(e, "Permission denied"@) {
            PluginCheckView { installed: true, permission_error: true, error: Some(e) }
        } else {
            PluginCheckView { installed: false, permission_error: false, error: Some(e) }
        },
    }
}

/// The failure of a probe as a mathematical value.
pub open spec fn failure_view(failure: Option<String>) -> Option<Seq<char>> {
    match failure {
        Some(e) => Some(e@),
        None => None,
    }
}

/// What a probe of the plugin's endpoint says about the plugin; `failure`
/// is the message the probe failed with, if it failed.
pub fn plugin_check(failure: Option<String>) -> (check: PluginCheck)
    ensures
        check@ == plugin_state(failure_view(failure)),
{
    match failure {
        None => PluginCheck { installed: true, permission_error: false, error: None },
        Some(e) => {
            let bytes = e.as_str().as_bytes();
            if contains_bytes(bytes, "404".as_bytes()) || contains_bytes(
                bytes,
                "API endpoint not found".as_bytes(),
            ) {
                PluginCheck { installed: false, permission_error: false, error: None }
            } else if contains_bytes(bytes, "403".as_bytes()) || contains_bytes(
                bytes,
                "Permission denied".as_bytes(),
            ) {
                PluginCheck { installed: true, permission_error: true, error: Some(e) }
            } else {
                PluginCheck { installed: false, permission_error: false, error: Some(e) }
            }
        },
    }
}

} // verus!
