use vstd::prelude::*;

use crate::i18n::BackendData;

verus! {

/// The interface language in effect.
pub struct I18nSettings {
    /// The locale of the interface, such as "en".
    pub locale: String,
}

/// What one settings source says of the interface language.
pub struct I18nSettingsContent {
    /// The locale it asks for, if it asks for one.
    pub locale: Option<String>,
}

/// The locale in effect when `default` is overridden by each of `sources` in
/// turn: the last source that names a locale wins.
pub open spec fn chosen_locale(default: Seq<char>, sources: Seq<I18nSettingsContent>) -> Seq<char>
    decreases sources.len(),
{
    if sources.len() == 0 {
        default
    } else {
        match sources.last().locale {
            Some(l) => l@,
            None => chosen_locale(default, sources.drop_last()),
        }
    }
}

impl I18nSettings {
    /// Switches to `locale` when `translations` has a table for it, and
    /// returns the locale switched to; otherwise changes nothing.
    pub fn switch_locale(&mut self, translations: &BackendData, locale: &str) -> (r: Option<
        String,
    >)
        ensures
            translations.locales().contains(locale@) ==> {
                &&& r matches Some(l) && l@ == locale@
                &&& final(self).locale@ == locale@
            },
            !translations.locales().contains(locale@) ==> {
                &&& r is None
                &&& final(self).locale == old(self).locale
            },
    {
        if translations.has_locale(locale) {
            self.locale = String::from_str(locale);
            Some(String::from_str(locale))
        } else {
            None
        }
    }

    /// The settings that result from the defaults overridden by each of
    /// `sources` in turn (the user's file, then the release channel's).
    pub fn load(defaults: &I18nSettingsContent, sources: &Vec<I18nSettingsContent>) -> (r:
        I18nSettings)
        requires
            defaults.locale is Some,
        ensures
            r.locale@ == chosen_locale(defaults.locale->0@, sources@),
    {
        let mut locale = match &defaults.locale {
            Some(l) => l.clone(),
            None => String::new(),
        };
        let mut i: usize = 0;
        while i < sources.len()
            invariant
                defaults.locale is Some,
                i <= sources@.len(),
                locale@ == chosen_locale(defaults.locale->0@, sources@.take(i as int)),
            decreases sources@.len() - i,
        {
            assert(sources@.take(i + 1).drop_last() =~= sources@.take(i as int));
            assert(sources@.take(i + 1).last() == sources@[i as int]);
            if let Some(l) = &sources[i].locale {
                locale = l.clone();
            }
            i = i + 1;
        }
        assert(sources@.take(sources@.len() as int) =~= sources@);
        I18nSettings { locale }
    }
}

} // verus!
