//! Connection profiles: what callers see, what the store keeps, and the
//! mathematical values both stand for.

use vstd::prelude::*;

use vstd::string::StringExecFns;

use crate::cipher::unseal;
use crate::text::{decimal, decimal_text};

verus! {

/// One saved firewall connection, as handed to and from callers.
#[derive(Debug, PartialEq, Eq)]
pub struct ApiInfo {
    pub id: i64,
    pub profile_name: String,
    pub api_key: String,
    pub api_secret: String,
    pub api_url: String,
    pub port: u16,
    pub is_default: bool,
}

/// An [`ApiInfo`] as a mathematical value.
pub struct ApiInfoView {
    pub id: i64,
    pub profile_name: Seq<char>,
    pub api_key: Seq<char>,
    pub api_secret: Seq<char>,
    pub api_url: Seq<char>,
    pub port: u16,
    pub is_default: bool,
}

impl View for ApiInfo {
    type V = ApiInfoView;

    open spec fn view(&self) -> ApiInfoView {
        ApiInfoView {
            id: self.id,
            profile_name: self.profile_name@,
            api_key: self.api_key@,
            api_secret: self.api_secret@,
            api_url: self.api_url@,
            port: self.port,
            is_default: self.is_default,
        }
    }
}

impl Clone for ApiInfo {
    fn clone(&self) -> (copy: Self)
        ensures
            copy@ == self@,
    {
        ApiInfo {
            id: self.id,
            profile_name: self.profile_name.clone(),
            api_key: self.api_key.clone(),
            api_secret: self.api_secret.clone(),
            api_url: self.api_url.clone(),
            port: self.port,
            is_default: self.is_default,
        }
    }
}

/// Whether one dashboard widget is shown, and where.
#[derive(Debug, PartialEq, Eq)]
pub struct DashboardWidgetPref {
    pub widget_key: String,
    pub visible: bool,
    pub position: i32,
}

/// A [`DashboardWidgetPref`] as a mathematical value.
pub struct WidgetPrefView {
    pub widget_key: Seq<char>,
    pub visible: bool,
    pub position: i32,
}

impl View for DashboardWidgetPref {
    type V = WidgetPrefView;

    open spec fn view(&self) -> WidgetPrefView {
        WidgetPrefView {
            widget_key: self.widget_key@,
            visible: self.visible,
            position: self.position,
        }
    }
}

impl Clone for DashboardWidgetPref {
    fn clone(&self) -> (copy: Self)
        ensures
            copy@ == self@,
    {
        DashboardWidgetPref {
            widget_key: self.widget_key.clone(),
            visible: self.visible,
            position: self.position,
        }
    }
}

/// A protected field as the store keeps it: in the clear while the store is
/// unencrypted, as ciphertext and nonce once it is encrypted.
#[derive(Debug, PartialEq, Eq)]
pub enum Secret {
    Plain(String),
    Sealed { ciphertext: Vec<u8>, nonce: Vec<u8> },
}

/// A [`Secret`] as a mathematical value.
pub enum SecretView {
    Plain(Seq<char>),
    Sealed { ciphertext: Seq<u8>, nonce: Seq<u8> },
}

impl View for Secret {
    type V = SecretView;

    open spec fn view(&self) -> SecretView {
        match self {
            Secret::Plain(text) => SecretView::Plain(text@),
            Secret::Sealed { ciphertext, nonce } => SecretView::Sealed {
                ciphertext: ciphertext@,
                nonce: nonce@,
            },
        }
    }
}

/// One row of the profile table.
#[derive(Debug, PartialEq, Eq)]
pub struct StoredProfile {
    pub id: i64,
    pub profile_name: String,
    pub api_key: Secret,
    pub api_secret: Secret,
    pub api_url: String,
    pub port: u16,
    pub is_default: bool,
}

/// A [`StoredProfile`] as a mathematical value.
pub struct RowView {
    pub id: i64,
    pub profile_name: Seq<char>,
    pub api_key: SecretView,
    pub api_secret: SecretView,
    pub api_url: Seq<char>,
    pub port: u16,
    pub is_default: bool,
}

impl View for StoredProfile {
    type V = RowView;

    open spec fn view(&self) -> RowView {
        RowView {
            id: self.id,
            profile_name: self.profile_name@,
            api_key: self.api_key@,
            api_secret: self.api_secret@,
            api_url: self.api_url@,
            port: self.port,
            is_default: self.is_default,
        }
    }
}

/// The rows of a table as mathematical values, in stored order.
pub open spec fn rows_view(rows: Seq<StoredProfile>) -> Seq<RowView> {
    rows.map_values(|row: StoredProfile| row@)
}

/// The text a stored secret yields to a session: a plain one always its
/// text; a sealed one its plaintext if a PIN is cached and opens it, and the
/// empty text otherwise.
pub open spec fn disclosed(secret: SecretView, session: Option<Seq<char>>) -> Seq<char> {
    match secret {
        SecretView::Plain(text) => text,
        SecretView::Sealed { ciphertext, nonce } => match session {
            Some(pin) => match unseal(ciphertext, nonce, pin) {
                Some(text) => text,
                None => Seq::empty(),
            },
            None => Seq::empty(),
        },
    }
}

/// The profile a single read returns for a stored row.
pub open spec fn revealed(row: RowView, session: Option<Seq<char>>) -> ApiInfoView {
    ApiInfoView {
        id: row.id,
        profile_name: row.profile_name,
        api_key: disclosed(row.api_key, session),
        api_secret: disclosed(row.api_secret, session),
        api_url: row.api_url,
        port: row.port,
        is_default: row.is_default,
    }
}

/// The text a listing shows for a stored secret: plain text as it is,
/// nothing at all for a sealed one.
pub open spec fn listed_secret(secret: SecretView) -> Seq<char> {
    match secret {
        SecretView::Plain(text) => text,
        SecretView::Sealed { .. } => Seq::empty(),
    }
}

/// The profile a listing returns for a stored row.
pub open spec fn listed(row: RowView) -> ApiInfoView {
    ApiInfoView {
        id: row.id,
        profile_name: row.profile_name,
        api_key: listed_secret(row.api_key),
        api_secret: listed_secret(row.api_secret),
        api_url: row.api_url,
        port: row.port,
        is_default: row.is_default,
    }
}

/// The address of an endpoint of the firewall a profile connects to: the
/// profile's address, a colon, its port in decimal, and the endpoint's path.
pub open spec fn api_url_of(profile: ApiInfoView, endpoint: Seq<char>) -> Seq<char> {
    profile.api_url + ":"@ + decimal_text(profile.port as nat) + endpoint
}

/// The address of an endpoint of the firewall a profile connects to.
pub fn build_api_url(api_info: &ApiInfo, endpoint: &str) -> (url: String)
    ensures
        url@ == api_url_of(api_info@, endpoint@),
{
    let mut url = api_info.api_url.clone();
    url.append(":");
    url.append(decimal(api_info.port as u64).as_str());
    url.append(endpoint);
    url
}

} // verus!
