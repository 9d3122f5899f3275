//! The settings a run needs before it makes its first call.
//!
//! Three named values bind the run to an account and a default region. Each
//! must be there: a run that lacks one does not start.

use vstd::prelude::*;

verus! {

/// The three values, in the order in which they are looked for.
#[derive(Clone, Copy, Debug, PartialEq, Eq, Structural)]
pub enum Setting {
    AccessKeyId,
    SecretAccessKey,
    Region,
}

/// The values of a run.
#[derive(Clone, PartialEq, Eq)]
pub struct Settings {
    pub access_key_id: String,
    pub secret_access_key: String,
    pub region: String,
}

/// What [`Settings`] stand for.
pub struct SettingsView {
    pub access_key_id: Seq<char>,
    pub secret_access_key: Seq<char>,
    pub region: Seq<char>,
}

impl View for Settings {
    type V = SettingsView;

    open spec fn view(&self) -> SettingsView {
        SettingsView {
            access_key_id: self.access_key_id@,
            secret_access_key: self.secret_access_key@,
            region: self.region@,
        }
    }
}

/// The name of the variable that holds the value.
pub open spec fn variable_of(setting: Setting) -> Seq<char> {
    match setting {
        Setting::AccessKeyId => "AWS_ACCESS_KEY_ID"@,
        Setting::SecretAccessKey => "AWS_SECRET_ACCESS_KEY"@,
        Setting::Region => "AWS_REGION"@,
    }
}

/// What a value that may be missing stands for.
pub open spec fn value_view(value: Option<String>) -> Option<Seq<char>> {
    match value {
        Some(value) => Some(value@),
        None => None,
    }
}

/// The settings made of the three values, or the first value that is missing.
pub open spec fn settings_of(
    access_key_id: Option<Seq<char>>,
    secret_access_key: Option<Seq<char>>,
    region: Option<Seq<char>>,
) -> Result<SettingsView, Setting> {
    if access_key_id is None {
        Err(Setting::AccessKeyId)
    } else if secret_access_key is None {
        Err(Setting::SecretAccessKey)
    } else if region is None {
        Err(Setting::Region)
    } else {
        Ok(
            SettingsView {
                access_key_id: access_key_id->0,
                secret_access_key: secret_access_key->0,
                region: region->0,
            },
        )
    }
}

impl Setting {
    /// The name of the variable that holds the value.
    pub fn variable(&self) -> (name: &'static str)
        ensures
            name@ == variable_of(*self),
    {
        match self {
            Setting::AccessKeyId => "AWS_ACCESS_KEY_ID",
            Setting::SecretAccessKey => "AWS_SECRET_ACCESS_KEY",
            Setting::Region => "AWS_REGION",
        }
    }
}

/// Makes the settings of a run from the three values as they were found, and
/// names the first that is missing when one is.
pub fn load_settings(
    access_key_id: Option<String>,
    secret_access_key: Option<String>,
    region: Option<String>,
) -> (settings: Result<Settings, Setting>)
    ensures
        match settings_of(
            value_view(access_key_id),
            value_view(secret_access_key),
            value_view(region),
        ) {
            Ok(found) => settings is Ok && settings->Ok_0@ == found,
            Err(missing) => settings == Err::<Settings, Setting>(missing),
        },
{
    let access_key_id = match access_key_id {
        Some(value) => value,
        None => {
            return Err(Setting::AccessKeyId);
        },
    };
    let secret_access_key = match secret_access_key {
        Some(value) => value,
        None => {
            return Err(Setting::SecretAccessKey);
        },
    };
    let region = match region {
        Some(value) => value,
        None => {
            return Err(Setting::Region);
        },
    };
    Ok(Settings { access_key_id, secret_access_key, region })
}

} // verus!
