//! What the user has chosen for the system to install.

use vstd::prelude::*;
use vstd::string::StringExecFns;

verus! {

/// The chosen locale.
#[derive(Debug, Clone, PartialEq, Eq)]
pub struct LocaleConfig {
    pub lang: String,
    pub encoding: String,
    pub modifier: Option<String>,
}

impl Default for LocaleConfig {
    /// American English in UTF-8, without modifier.
    fn default() -> (locale: Self)
        ensures
            locale.lang@ == "en_US"@,
            locale.encoding@ == "UTF-8"@,
            locale.modifier is None,
    {
        LocaleConfig {
            lang: String::from_str("en_US"),
            encoding: String::from_str("UTF-8"),
            modifier: None,
        }
    }
}

/// The choices of the user.
#[derive(Debug, Clone, PartialEq, Eq)]
pub struct Config {
    pub keyboard_layout: String,
    pub mirror: String,
    pub locale: LocaleConfig,
    pub hostname: String,
}

impl Config {
    /// The choices before the user made any: the American keyboard layout, no mirror,
    /// the default locale and the host name `artix`.
    pub fn new() -> (config: Self)
        ensures
            config.keyboard_layout@ == "us"@,
            config.mirror@ == Seq::<char>::empty(),
            config.locale.lang@ == "en_US"@,
            config.locale.encoding@ == "UTF-8"@,
            config.locale.modifier is None,
            config.hostname@ == "artix"@,
    {
        Config {
            keyboard_layout: String::from_str("us"),
            mirror: String::new(),
            locale: LocaleConfig::default(),
            hostname: String::from_str("artix"),
        }
    }
}

} // verus!
