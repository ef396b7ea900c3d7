use vstd::prelude::*;

use crate::entry_path::{has_char, last_part, lemma_open_part_tail};
use crate::packing::{ends_with, starts_with};

verus! {

/// What `serde_yaml` makes of `bytes` read as a YAML mapping from strings to
/// strings: its pairs in key order, or `None` where the text is no such mapping.
pub uninterp spec fn yaml_string_map(bytes: Seq<u8>) -> Option<Seq<(Seq<char>, Seq<char>)>>;

pub open spec fn pair_view(p: (String, String)) -> (Seq<char>, Seq<char>) {
    (p.0@, p.1@)
}

/// Relies on `serde_yaml::from_slice` into a `BTreeMap<String, String>`: the
/// pairs come out in key order and depend on the bytes alone.
#[verifier::external_body]
fn parse_yaml_map(bytes: &[u8]) -> (r: Option<Vec<(String, String)>>)
    ensures
        match r {
            Some(pairs) => yaml_string_map(bytes@) == Some(pairs@.map_values(|p| pair_view(p))),
            None => yaml_string_map(bytes@) is None,
        },
{
    serde_yaml::from_slice::<std::collections::BTreeMap<String, String>>(bytes).ok().map(
        |m| m.into_iter().collect(),
    )
}

/// The translations of one locale, as key and text pairs.
pub struct LocaleTable {
    pub locale: String,
    pub entries: Vec<(String, String)>,
}

/// The text stored for `key` among `entries`; where a key repeats, the last pair counts.
pub open spec fn value_of(entries: Seq<(String, String)>, key: Seq<char>) -> Option<Seq<char>>
    decreases entries.len(),
{
    if entries.len() == 0 {
        None
    } else if entries.last().0@ == key {
        Some(entries.last().1@)
    } else {
        value_of(entries.drop_last(), key)
    }
}

/// The text stored for `key` among `pairs`; where a key repeats, the last pair counts.
pub open spec fn value_in(pairs: Seq<(Seq<char>, Seq<char>)>, key: Seq<char>) -> Option<Seq<char>>
    decreases pairs.len(),
{
    if pairs.len() == 0 {
        None
    } else if pairs.last().0 == key {
        Some(pairs.last().1)
    } else {
        value_in(pairs.drop_last(), key)
    }
}

proof fn lemma_value_of_view(entries: Seq<(String, String)>, key: Seq<char>)
    ensures
        value_of(entries, key) == value_in(entries.map_values(|p| pair_view(p)), key),
    decreases entries.len(),
{
    if entries.len() > 0 {
        lemma_value_of_view(entries.drop_last(), key);
        assert(entries.map_values(|p| pair_view(p)).drop_last() =~= entries.drop_last().map_values(
            |p| pair_view(p),
        ));
    }
}

/// The pairs that the last readable locale file for `locale` among `assets` holds.
pub open spec fn asset_table(assets: Seq<(String, Vec<u8>)>, locale: Seq<char>) -> Option<
    Seq<(Seq<char>, Seq<char>)>,
>
    decreases assets.len(),
{
    if assets.len() == 0 {
        None
    } else if locale_of_asset(assets.last().0@) == Some(locale) && yaml_string_map(
        assets.last().1@,
    ) is Some {
        yaml_string_map(assets.last().1@)
    } else {
        asset_table(assets.drop_last(), locale)
    }
}

/// The locale that the asset at `path` provides, if it is a locale file.
fn asset_locale(path: &str) -> (r: Option<String>)
    ensures
        match r {
            Some(l) => locale_of_asset(path@) == Some(l@),
            None => locale_of_asset(path@) is None,
        },
{
    let prefix = "locales/";
    let ext = ".yml";
    proof {
        reveal_strlit("locales/");
        reveal_strlit(".yml");
    }
    assert(prefix@ =~= seq!['l', 'o', 'c', 'a', 'l', 'e', 's', '/']);
    assert(ext@ =~= seq!['.', 'y', 'm', 'l']);
    if path.unicode_len() < 12 || !starts_with(path, prefix) || !ends_with(path, ext) {
        return None;
    }
    let name = last_part(path);
    let ghost n = path@.len();
    proof {
        reveal_with_fuel(has_char, 5);
        assert(!has_char(ext@, '/'));
        assert(path@ =~= path@.take(n - 4) + ext@);
        lemma_open_part_tail(path@.take(n - 4), ext@);
    }
    let m = name.as_str().unicode_len();
    let ext_name = String::from_str(ext);
    if name == ext_name {
        Some(name)
    } else {
        let stem = name.as_str().substring_char(0, m - 4);
        Some(String::from_str(stem))
    }
}

pub open spec fn locales_of(tables: Seq<LocaleTable>) -> Seq<Seq<char>> {
    tables.map_values(|t: LocaleTable| t.locale@)
}

/// The locale that the asset at `path` provides: files `locales/<stem>.yml`.
pub open spec fn locale_of_asset(path: Seq<char>) -> Option<Seq<char>> {
    let prefix = seq!['l', 'o', 'c', 'a', 'l', 'e', 's', '/'];
    let ext = seq!['.', 'y', 'm', 'l'];
    if path.len() >= prefix.len() + ext.len() && path.take(8) == prefix && path.skip(
        path.len() - 4,
    ) == ext {
        Some(file_stem(path))
    } else {
        None
    }
}

/// The file name of `path` (after its last '/'), less its `.yml` extension;
/// a name that is only `.yml` is its own stem.
pub open spec fn file_stem(path: Seq<char>) -> Seq<char> {
    let name = crate::entry_path::open_part(path);
    if name == seq!['.', 'y', 'm', 'l'] {
        name
    } else {
        name.take(name.len() - 4)
    }
}

/// The translation tables: one table of key and text pairs per locale, kept
/// in the order the locales first arrived, no locale holding two tables.
pub struct BackendData {
    tables: Vec<LocaleTable>,
}

impl BackendData {
    pub closed spec fn tables(&self) -> Seq<LocaleTable> {
        self.tables@
    }

    pub open spec fn locales(&self) -> Seq<Seq<char>> {
        locales_of(self.tables())
    }

    /// No locale has two tables.
    pub open spec fn wf(&self) -> bool {
        forall|i: int, j: int|
            0 <= i < j < self.locales().len() ==> self.locales()[i] != self.locales()[j]
    }

    #[verifier::type_invariant]
    spec fn inv(&self) -> bool {
        self.wf()
    }

    /// The table of `locale` and its position, if there is one.
    pub open spec fn table_of(&self, locale: Seq<char>) -> Option<int> {
        if exists|i: int| 0 <= i < self.tables().len() && self.tables()[i].locale@ == locale {
            Some(choose|i: int| 0 <= i < self.tables().len() && self.tables()[i].locale@ == locale)
        } else {
            None
        }
    }

    /// The text for `key` in `locale`.
    pub open spec fn translation(&self, locale: Seq<char>, key: Seq<char>) -> Option<Seq<char>> {
        match self.table_of(locale) {
            Some(i) => value_of(self.tables()[i].entries@, key),
            None => None,
        }
    }

    /// The translations in the locale files among `assets` (path and
    /// contents): each file `locales/<locale>.yml` that reads as a YAML
    /// mapping from strings to strings gives the table of `<locale>`; where
    /// two files give the same locale, the later one counts.
    pub fn init(assets: &Vec<(String, Vec<u8>)>) -> (r: BackendData)
        ensures
            r.wf(),
            forall|l: Seq<char>| #[trigger]
                r.locales().contains(l) == (asset_table(assets@, l) is Some),
            forall|l: Seq<char>, k: Seq<char>| #[trigger]
                r.translation(l, k) == match asset_table(assets@, l) {
                    Some(p) => value_in(p, k),
                    None => None,
                },
    {
        let mut data = BackendData::new();
        let mut i: usize = 0;
        while i < assets.len()
            invariant
                data.wf(),
                i <= assets@.len(),
                forall|l: Seq<char>| #[trigger]
                    data.locales().contains(l) == (asset_table(assets@.take(i as int), l) is Some),
                forall|l: Seq<char>, k: Seq<char>| #[trigger]
                    data.translation(l, k) == match asset_table(assets@.take(i as int), l) {
                        Some(p) => value_in(p, k),
                        None => None,
                    },
            decreases assets@.len() - i,
        {
            let ghost prev = data;
            let ghost upto = assets@.take(i + 1);
            assert(upto.drop_last() =~= assets@.take(i as int));
            assert(upto.last() == assets@[i as int]);
            if let Some(locale) = asset_locale(assets[i].0.as_str()) {
                if let Some(entries) = parse_yaml_map(assets[i].1.as_slice()) {
                    data.insert(locale, entries);
                    assert forall|l: Seq<char>, k: Seq<char>| #[trigger]
                        data.translation(l, k) == match asset_table(upto, l) {
                            Some(p) => value_in(p, k),
                            None => None,
                        } by {
                        lemma_value_of_view(entries@, k);
                    }
                    assert forall|l: Seq<char>| #[trigger]
                        data.locales().contains(l) == (asset_table(upto, l) is Some) by {
                        assert(prev.locales().contains(l) == (asset_table(
                            assets@.take(i as int),
                            l,
                        ) is Some));
                        if l != locale@ {
                            assert(asset_table(upto, l) == asset_table(assets@.take(i as int), l));
                        } else {
                            assert(asset_table(upto, l) is Some);
                        }
                        if prev.locales().contains(locale@) {
                            assert(data.locales() == prev.locales());
                        } else {
                            assert(data.locales() == prev.locales().push(locale@));
                            vstd::seq_lib::lemma_seq_contains_after_push(prev.locales(), locale@, l);
                        }
                    }
                }
            }
            i = i + 1;
        }
        assert(assets@.take(assets@.len() as int) =~= assets@);
        data
    }

    /// No translations at all.
    pub fn new() -> (r: BackendData)
        ensures
            r.wf(),
            r.tables().len() == 0,
    {
        BackendData { tables: Vec::new() }
    }

    fn position(&self, locale: &String) -> (r: Option<usize>)
        requires
            self.wf(),
        ensures
            r is None <==> self.table_of(locale@) is None,
            r matches Some(i) ==> self.table_of(locale@) == Some(i as int) && i < self.tables().len(),
    {
        let mut i: usize = 0;
        while i < self.tables.len()
            invariant
                self.wf(),
                i <= self.tables@.len(),
                forall|k: int| 0 <= k < i ==> self.tables@[k].locale@ != locale@,
            decreases self.tables@.len() - i,
        {
            if self.tables[i].locale == *locale {
                proof {
                    self.lemma_table_at(locale@, i as int);
                }
                return Some(i);
            }
            i = i + 1;
        }
        None
    }

    /// Puts `entries` in place as the table of `locale`, replacing the table
    /// that locale had; a new locale comes after those already there.
    pub fn insert(&mut self, locale: String, entries: Vec<(String, String)>)
        ensures
            final(self).wf(),
            old(self).locales().contains(locale@) ==> final(self).locales() == old(
                self,
            ).locales(),
            !old(self).locales().contains(locale@) ==> final(self).locales() == old(
                self,
            ).locales().push(locale@),
            forall|l: Seq<char>, k: Seq<char>|
                #[trigger] final(self).translation(l, k) == if l == locale@ {
                    value_of(entries@, k)
                } else {
                    old(self).translation(l, k)
                },
    {
        proof {
            use_type_invariant(&*self);
        }
        let ghost before = *self;
        let position = self.position(&locale);
        let mut tables: Vec<LocaleTable> = Vec::new();
        std::mem::swap(&mut tables, &mut self.tables);
        match position {
            Some(i) => {
                tables[i].entries = entries;
                assert(locales_of(tables@) =~= before.locales());
                self.tables = tables;
                assert(self.locales() =~= before.locales());
                assert(before.locales()[i as int] == locale@);
                assert forall|l: Seq<char>, k: Seq<char>|
                    #[trigger] self.translation(l, k) == if l == locale@ {
                        value_of(entries@, k)
                    } else {
                        before.translation(l, k)
                    } by {
                    if l == locale@ {
                        self.lemma_table_at(l, i as int);
                    } else if let Some(j) = before.table_of(l) {
                        assert(j != i);
                        self.lemma_table_at(l, j);
                    } else {
                        assert forall|j: int| 0 <= j < self.tables().len() implies self.tables()[j].locale@
                            != l by {
                            assert(self.tables()[j].locale@ == before.tables()[j].locale@);
                        }
                    }
                }
            },
            None => {
                assert(!before.locales().contains(locale@)) by {
                    if before.locales().contains(locale@) {
                        let j = choose|j: int|
                            0 <= j < before.locales().len() && before.locales()[j] == locale@;
                        assert(before.tables()[j].locale@ == locale@);
                    }
                }
                tables.push(LocaleTable { locale, entries });
                assert(locales_of(tables@) =~= before.locales().push(locale@));
                assert(locales_of(tables@)[before.locales().len() as int] == locale@);
                self.tables = tables;
                assert(self.locales() =~= before.locales().push(locale@));
                assert forall|l: Seq<char>, k: Seq<char>|
                    #[trigger] self.translation(l, k) == if l == locale@ {
                        value_of(entries@, k)
                    } else {
                        before.translation(l, k)
                    } by {
                    let last = before.tables().len() as int;
                    if l == locale@ {
                        self.lemma_table_at(l, last);
                    } else if let Some(j) = before.table_of(l) {
                        self.lemma_table_at(l, j);
                    } else {
                        assert forall|j: int| 0 <= j < self.tables().len() implies self.tables()[j].locale@
                            != l by {
                            if j < last {
                                assert(self.tables()[j] == before.tables()[j]);
                            }
                        }
                    }
                }
            },
        }
    }

    proof fn lemma_table_at(&self, locale: Seq<char>, i: int)
        requires
            self.wf(),
            0 <= i < self.tables().len(),
            self.tables()[i].locale@ == locale,
        ensures
            self.table_of(locale) == Some(i),
    {
        assert(self.tables()[i].locale@ == locale);
        assert(exists|k: int| 0 <= k < self.tables().len() && self.tables()[k].locale@ == locale);
        let c = self.table_of(locale)->0;
        assert(0 <= c < self.tables().len() && self.tables()[c].locale@ == locale);
        assert(self.locales()[i] == locale);
        assert(self.locales()[c] == locale);
        if c < i {
            assert(self.locales()[c] != self.locales()[i]);
        } else if i < c {
            assert(self.locales()[i] != self.locales()[c]);
        }
    }

    /// The locales that have a table, in the order they were first inserted.
    pub fn available_locales(&self) -> (r: Vec<&str>)
        ensures
            r@.len() == self.locales().len(),
            forall|i: int| 0 <= i < r@.len() ==> r@[i]@ == self.locales()[i],
    {
        let mut r: Vec<&str> = Vec::new();
        let mut i: usize = 0;
        while i < self.tables.len()
            invariant
                i <= self.tables@.len(),
                r@.len() == i,
                forall|k: int| 0 <= k < i ==> r@[k]@ == self.locales()[k],
            decreases self.tables@.len() - i,
        {
            r.push(self.tables[i].locale.as_str());
            i = i + 1;
        }
        r
    }

    /// Whether `locale` has a table.
    pub fn has_locale(&self, locale: &str) -> (r: bool)
        ensures
            r == self.locales().contains(locale@),
    {
        let wanted = String::from_str(locale);
        let mut i: usize = 0;
        while i < self.tables.len()
            invariant
                wanted@ == locale@,
                i <= self.tables@.len(),
                forall|k: int| 0 <= k < i ==> self.locales()[k] != locale@,
            decreases self.tables@.len() - i,
        {
            if self.tables[i].locale == wanted {
                assert(self.locales().len() == self.tables@.len());
                assert(self.locales()[i as int] == locale@);
                return true;
            }
            i = i + 1;
        }
        false
    }

    /// The text for `key` in `locale`, if that locale has a table holding the key.
    pub fn translate<'a>(&'a self, locale: &str, key: &str) -> (r: Option<&'a str>)
        ensures
            match r {
                Some(v) => self.translation(locale@, key@) == Some(v@),
                None => self.translation(locale@, key@) is None,
            },
    {
        proof {
            use_type_invariant(self);
        }
        let locale = String::from_str(locale);
        let key = String::from_str(key);
        match self.position(&locale) {
            Some(i) => lookup(&self.tables[i].entries, &key),
            None => None,
        }
    }
}

/// The text stored for `key` among `entries`, the last pair for it counting.
fn lookup<'a>(entries: &'a Vec<(String, String)>, key: &String) -> (r: Option<&'a str>)
    ensures
        match r {
            Some(v) => value_of(entries@, key@) == Some(v@),
            None => value_of(entries@, key@) is None,
        },
{
    let mut i: usize = entries.len();
    assert(entries@.take(i as int) =~= entries@);
    while i > 0
        invariant
            i <= entries@.len(),
            value_of(entries@, key@) == value_of(entries@.take(i as int), key@),
        decreases i,
    {
        let ghost upto = entries@.take(i as int);
        assert(upto.drop_last() =~= entries@.take(i - 1));
        assert(upto.last() == entries@[i - 1]);
        if entries[i - 1].0 == *key {
            return Some(entries[i - 1].1.as_str());
        }
        i = i - 1;
    }
    assert(entries@.take(0) =~= Seq::<(String, String)>::empty());
    None
}

/// The translation source handed to the localisation runtime.
pub struct Backend {
    data: BackendData,
}

impl Backend {
    pub closed spec fn data(&self) -> BackendData {
        self.data
    }

    pub fn new(data: BackendData) -> (r: Backend)
        ensures
            r.data() == data,
    {
        Backend { data }
    }

    /// The translation tables behind this backend.
    pub fn tables(&self) -> (r: &BackendData)
        ensures
            *r == self.data(),
    {
        &self.data
    }

    /// The locales that have translations.
    pub fn available_locales(&self) -> (r: Vec<&str>)
        ensures
            r@.len() == self.data().locales().len(),
            forall|i: int| 0 <= i < r@.len() ==> r@[i]@ == self.data().locales()[i],
    {
        self.data.available_locales()
    }

    /// The text for `key` in `locale`.
    pub fn translate<'a>(&'a self, locale: &str, key: &str) -> (r: Option<&'a str>)
        ensures
            match r {
                Some(v) => self.data().translation(locale@, key@) == Some(v@),
                None => self.data().translation(locale@, key@) is None,
            },
    {
        self.data.translate(locale, key)
    }
}

} // verus!
