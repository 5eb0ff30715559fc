//! The sprite catalogue: a parsed list of catalogue numbers and filenames,
//! with lookups by number, by region and at random, and display-name
//! formatting.

use vstd::prelude::*;
use rand::Rng;
use crate::pokemon::{Region, region_lo, region_hi};

verus! {

#[verifier::external_type_specification]
#[verifier::external_body]
#[verifier::reject_recursive_types(L)]
#[verifier::reject_recursive_types(R)]
#[verifier::reject_recursive_types(LS)]
#[verifier::reject_recursive_types(RS)]
pub struct ExBiHashMap<L, R, LS, RS>(bimap::BiHashMap<L, R, LS, RS>);

#[verifier::external_type_specification]
#[verifier::external_body]
pub struct ExCsvError(csv::Error);

/// The bimap pairing catalogue numbers with filenames.
pub type NameMap = bimap::BiHashMap<usize, String>;

/// The views of a sequence of strings.
pub open spec fn views_of(v: Seq<String>) -> Seq<Seq<char>> {
    v.map_values(|s: String| s@)
}

/// The views of a sequence of string pairs.
pub open spec fn pair_views(v: Seq<(String, String)>) -> Seq<(Seq<char>, Seq<char>)> {
    v.map_values(|p: (String, String)| (p.0@, p.1@))
}

/// The first components of a sequence of pairs.
pub open spec fn firsts_of(v: Seq<(Seq<char>, Seq<char>)>) -> Seq<Seq<char>> {
    v.map_values(|p: (Seq<char>, Seq<char>)| p.0)
}

/// The catalogue numbers that a map pairs with the given filename.
pub open spec fn value_keys(m: Map<usize, Seq<char>>, v: Seq<char>) -> Set<usize> {
    Set::new(|k: usize| m.contains_key(k) && m[k] == v)
}

/// The pairs a catalogue bimap holds, as a map from catalogue number to
/// filename characters.
pub uninterp spec fn bimap_contents(m: NameMap) -> Map<usize, Seq<char>>;

/// Relies on BiHashMap::with_capacity: a freshly made bimap holds no pairs.
#[verifier::external_body]
fn bimap_with_capacity(capacity: usize) -> (m: NameMap)
    ensures
        bimap_contents(m) =~= Map::empty(),
{
    bimap::BiHashMap::with_capacity(capacity)
}

/// Relies on BiHashMap::insert: the new pair replaces both the pair that
/// had its key and the pair that had its value.
#[verifier::external_body]
fn bimap_insert(m: &mut NameMap, k: usize, v: String)
    ensures
        bimap_contents(*final(m)) == bimap_contents(*old(m)).remove_keys(
            value_keys(bimap_contents(*old(m)), v@),
        ).insert(k, v@),
{
    m.insert(k, v);
}

/// Relies on BiHashMap::get_by_left: the filename paired with the number.
#[verifier::external_body]
fn bimap_get_by_left<'a>(m: &'a NameMap, k: usize) -> (r: Option<&'a String>)
    ensures
        match r {
            Some(v) => bimap_contents(*m).contains_key(k) && v@ == bimap_contents(*m)[k],
            None => !bimap_contents(*m).contains_key(k),
        },
{
    m.get_by_left(&k)
}

/// Relies on BiHashMap::get_by_right: the number paired with the filename.
#[verifier::external_body]
fn bimap_get_by_right(m: &NameMap, v: &str) -> (r: Option<usize>)
    ensures
        match r {
            Some(k) => bimap_contents(*m).contains_key(k) && bimap_contents(*m)[k] == v@,
            None => forall|k: usize|
                bimap_contents(*m).contains_key(k) ==> bimap_contents(*m)[k] != v@,
        },
{
    m.get_by_right(v).copied()
}

/// Relies on BiHashMap::len: how many pairs the bimap holds.
#[verifier::external_body]
fn bimap_len(m: &NameMap) -> (n: usize)
    ensures
        n as int == bimap_contents(*m).dom().len(),
{
    m.len()
}

/// What reading headerless two-field records from the given bytes yields,
/// if the bytes parse.
pub uninterp spec fn csv_records_of(data: Seq<u8>) -> Option<Seq<(Seq<char>, Seq<char>)>>;

/// Relies on csv::ReaderBuilder and csv::Reader::deserialize, reading
/// headerless records of two text fields; the parse is a function of the
/// bytes alone.
#[verifier::external_body]
fn parse_name_records(data: &[u8]) -> (r: Result<Vec<(String, String)>, csv::Error>)
    ensures
        match r {
            Ok(v) => csv_records_of(data@) == Some(pair_views(v@)),
            Err(_) => csv_records_of(data@) is None,
        },
{
    let mut reader = csv::ReaderBuilder::new().has_headers(false).from_reader(
        std::io::Cursor::new(data),
    );
    let mut out: Vec<(String, String)> = Vec::new();
    for entry in reader.deserialize() {
        match entry {
            Ok(rec) => out.push(rec),
            Err(e) => {
                return Err(e);
            },
        }
    }
    Ok(out)
}

/// Relies on Rng::gen_range over thread_rng: a value within the given
/// non-empty inclusive range; nothing more is known of which.
#[verifier::external_body]
fn random_in_range(lo: usize, hi: usize) -> (r: usize)
    requires
        lo <= hi,
    ensures
        lo <= r <= hi,
{
    rand::thread_rng().gen_range(lo..=hi)
}

/// What Inflector's title casing returns for a given character sequence.
pub uninterp spec fn title_of(s: Seq<char>) -> Seq<char>;

/// What sanitize-filename's sanitizer returns under this crate's fixed
/// options.
pub uninterp spec fn sanitize_spec(s: Seq<char>) -> Seq<char>;

/// Relies on sanitize_filename::sanitize_with_options with fixed options
/// (truncating, Windows rules, "-" replacement): the result depends on the
/// characters alone.
#[verifier::external_body]
pub fn sanitize_filename(filename: &str) -> (r: String)
    ensures
        r@ == sanitize_spec(filename@),
{
    sanitize_filename::sanitize_with_options(
        filename,
        sanitize_filename::Options { truncate: true, windows: true, replacement: "-" },
    )
}

/// Relies on Inflector's to_title_case: the result depends on the
/// characters alone.
#[verifier::external_body]
fn title_case(s: &str) -> (r: String)
    ensures
        r@ == title_of(s@),
{
    inflector::cases::titlecase::to_title_case(s)
}

/// A filename's characters prepared for display: dashes become spaces and
/// apostrophes are dropped.
pub open spec fn fmt_chars(s: Seq<char>) -> Seq<char>
    decreases s.len(),
{
    if s.len() == 0 {
        Seq::empty()
    } else {
        let rest = fmt_chars(s.drop_last());
        let c = s.last();
        if c == '\'' {
            rest
        } else if c == '-' {
            rest.push(' ')
        } else {
            rest.push(c)
        }
    }
}

/// The fallback display form of a filename: prepared characters, title-cased.
pub open spec fn raw_fmt_spec(s: Seq<char>) -> Seq<char> {
    title_of(fmt_chars(s))
}

/// Prepares and title-cases a filename for display.
fn raw_fmt(s: &str) -> (r: String)
    ensures
        r@ == raw_fmt_spec(s@),
{
    let n = s.unicode_len();
    let mut out = String::new();
    let mut i: usize = 0;
    while i < n
        invariant
            n == s@.len(),
            i <= n,
            out@ == fmt_chars(s@.take(i as int)),
        decreases n - i,
    {
        let c = s.get_char(i);
        proof {
            assert(s@.take(i as int + 1).drop_last() =~= s@.take(i as int));
            assert(s@.take(i as int + 1).last() == s@[i as int]);
        }
        if c == '\'' {
        } else if c == '-' {
            crate::text::push_char(&mut out, ' ');
        } else {
            crate::text::push_char(&mut out, c);
        }
        i = i + 1;
    }
    assert(s@.take(n as int) =~= s@);
    title_case(out.as_str())
}

/// Errors of catalogue operations.
pub enum ListError {
    /// The catalogue data did not parse.
    CsvParseError(csv::Error),
    /// No catalogue entry has this number; carries the number and the
    /// catalogue's size.
    InvalidPokemonId(usize, usize),
    /// The region covers no catalogue numbers.
    EmptyRegion(Region),
}

/// A parsed catalogue: catalogue numbers paired with filenames, and the
/// display names in catalogue order.
pub struct List {
    ids: NameMap,
    names: Vec<String>,
}

/// The catalogue map after inserting the filenames of the first `i`
/// records, numbered from 1 upward.
pub open spec fn ids_fold(records: Seq<(Seq<char>, Seq<char>)>, i: int) -> Map<usize, Seq<char>>
    decreases i,
{
    if i <= 0 {
        Map::empty()
    } else {
        let m = ids_fold(records, i - 1);
        let v = records[i - 1].1;
        m.remove_keys(value_keys(m, v)).insert(i as usize, v)
    }
}

impl List {
    /// The map from catalogue number to filename.
    pub closed spec fn ids_map(&self) -> Map<usize, Seq<char>> {
        bimap_contents(self.ids)
    }

    /// The display names, in catalogue order.
    pub closed spec fn names_view(&self) -> Seq<Seq<char>> {
        views_of(self.names@)
    }

    /// Catalogue numbers start at 1, there are finitely many, and no two
    /// share a filename.
    pub open spec fn wf(&self) -> bool {
        &&& self.ids_map().dom().finite()
        &&& forall|k: usize| self.ids_map().contains_key(k) ==> k >= 1
        &&& forall|k1: usize, k2: usize|
            self.ids_map().contains_key(k1) && self.ids_map().contains_key(k2) && self.ids_map()[k1]
                == self.ids_map()[k2] ==> k1 == k2
    }

    /// Reads a catalogue from headerless two-field records: each record's
    /// display name and filename, numbered from 1 in order.
    pub fn read(data: &[u8]) -> (r: Result<Self, ListError>)
        ensures
            match r {
                Ok(l) => {
                    &&& csv_records_of(data@) is Some
                    &&& l.names_view() == firsts_of(csv_records_of(data@)->Some_0)
                    &&& l.ids_map() == ids_fold(
                        csv_records_of(data@)->Some_0,
                        csv_records_of(data@)->Some_0.len() as int,
                    )
                    &&& l.wf()
                },
                Err(e) => csv_records_of(data@) is None && e is CsvParseError,
            },
    {
        let records = match parse_name_records(data) {
            Ok(v) => v,
            Err(e) => {
                return Err(ListError::CsvParseError(e));
            },
        };
        let ghost recs = csv_records_of(data@)->Some_0;

        let mut ids = bimap_with_capacity(1000);
        let mut names: Vec<String> = Vec::new();
        let n = records.len();
        let mut i: usize = 0;
        while i < n
            invariant
                n == records@.len(),
                recs == pair_views(records@),
                i <= n,
                names@.len() == i,
                forall|k: int| 0 <= k < i ==> (#[trigger] names@[k])@ == recs[k].0,
                bimap_contents(ids) == ids_fold(recs, i as int),
                bimap_contents(ids).dom().finite(),
                forall|k: usize| bimap_contents(ids).contains_key(k) ==> 1 <= k <= i,
                forall|k1: usize, k2: usize|
                    bimap_contents(ids).contains_key(k1) && bimap_contents(ids).contains_key(k2)
                        && bimap_contents(ids)[k1] == bimap_contents(ids)[k2] ==> k1 == k2,
            decreases n - i,
        {
            let ghost m_old = bimap_contents(ids);
            let ghost names_old = names@;
            let record = (records[i].0.clone(), records[i].1.clone());
            let id = i + 1;
            bimap_insert(&mut ids, id, record.1);
            names.push(record.0);
            proof {
                assert(recs[i as int] == (records@[i as int].0@, records@[i as int].1@));
                let removed = value_keys(m_old, recs[i as int].1);
                assert(m_old.remove_keys(removed).dom() =~= m_old.dom().difference(removed));
                vstd::set_lib::lemma_len_subset(
                    m_old.dom().difference(removed),
                    m_old.dom(),
                );
                assert(bimap_contents(ids) =~= ids_fold(recs, i as int + 1));
                let m_new = bimap_contents(ids);
                assert(m_new.dom() =~= m_old.dom().difference(removed).insert((i + 1) as usize));
                assert(m_new.dom().finite());
                assert(forall|k: usize| m_new.contains_key(k) ==> 1 <= k <= i + 1);
                assert((names@[i as int])@ == recs[i as int].0);
                assert(forall|k1: usize, k2: usize|
                    m_new.contains_key(k1) && m_new.contains_key(k2) && m_new[k1] == m_new[k2]
                        ==> k1 == k2);
            }
            i = i + 1;
        }
        assert(views_of(names@) =~= firsts_of(recs)) by {
            assert forall|k: int| 0 <= k < recs.len() implies views_of(names@)[k]
                == firsts_of(recs)[k] by {
                assert(views_of(names@)[k] == (names@[k])@);
                assert(firsts_of(recs)[k] == recs[k].0);
            }
        }
        Ok(List { ids, names })
    }

    /// Looks a filename up by catalogue number; fails with the number and
    /// the catalogue's size when the number is not listed.
    pub fn get_by_id(&self, id: usize) -> (r: Result<&String, ListError>)
        ensures
            match r {
                Ok(v) => self.ids_map().contains_key(id) && v@ == self.ids_map()[id],
                Err(e) => !self.ids_map().contains_key(id) && (match e {
                    ListError::InvalidPokemonId(a, b) => a == id && b as int
                        == self.ids_map().dom().len(),
                    _ => false,
                }),
            },
    {
        match bimap_get_by_left(&self.ids, id) {
            Some(v) => Ok(v),
            None => Err(ListError::InvalidPokemonId(id, bimap_len(&self.ids))),
        }
    }

    /// Picks a random catalogue number within the region and returns its
    /// filename; fails when the drawn number is not listed.
    pub fn get_by_region(&self, region: &Region) -> (r: Result<String, ListError>)
        ensures
            match r {
                Ok(v) => exists|i: usize|
                    region_lo(*region) <= i <= region_hi(*region) && (
                    #[trigger] self.ids_map().contains_key(i)) && self.ids_map()[i] == v@,
                Err(e) => match e {
                    ListError::InvalidPokemonId(a, b) => region_lo(*region) <= a <= region_hi(
                        *region,
                    ) && !self.ids_map().contains_key(a) && b as int
                        == self.ids_map().dom().len(),
                    _ => false,
                },
            },
    {
        let lo: usize = match region {
            Region::Kanto => 1,
            Region::Johto => 152,
            Region::Hoenn => 252,
            Region::Sinnoh => 387,
            Region::Unova => 494,
            Region::Kalos => 650,
            Region::Alola => 722,
            Region::Galar => 810,
        };
        let hi: usize = match region {
            Region::Kanto => 151,
            Region::Johto => 251,
            Region::Hoenn => 386,
            Region::Sinnoh => 493,
            Region::Unova => 649,
            Region::Kalos => 721,
            Region::Alola => 809,
            Region::Galar => 905,
        };
        assert(lo == region_lo(*region) && hi == region_hi(*region));
        let idx = random_in_range(lo, hi);
        match bimap_get_by_left(&self.ids, idx) {
            Some(v) => {
                let cloned = v.clone();
                assert(self.ids_map().contains_key(idx) && self.ids_map()[idx] == cloned@);
                Ok(cloned)
            },
            None => Err(ListError::InvalidPokemonId(idx, bimap_len(&self.ids))),
        }
    }

    /// Formats a filename for display: an entry of the catalogue shows its
    /// recorded display name; anything else has dashes turned to spaces,
    /// apostrophes dropped, and is title-cased.
    pub fn format_name(&self, filename: &str) -> (r: String)
        requires
            self.wf(),
        ensures
            forall|k: usize|
                (#[trigger] self.ids_map().contains_key(k)) && self.ids_map()[k] == filename@
                    ==> r@ == (if k - 1 < self.names_view().len() {
                    self.names_view()[k - 1]
                } else {
                    raw_fmt_spec(filename@)
                }),
            (forall|k: usize|
                (#[trigger] self.ids_map().contains_key(k)) ==> self.ids_map()[k] != filename@)
                ==> r@ == raw_fmt_spec(filename@),
    {
        match bimap_get_by_right(&self.ids, filename) {
            Some(id) => {
                if id - 1 < self.names.len() {
                    let out = self.names[id - 1].clone();
                    assert(out@ == self.names_view()[id - 1]);
                    out
                } else {
                    raw_fmt(filename)
                }
            },
            None => raw_fmt(filename),
        }
    }

    /// Picks a random catalogue number between 1 and the catalogue's size
    /// and returns its filename; fails when the drawn number is not listed.
    pub fn random(&self) -> (r: Result<String, ListError>)
        requires
            self.ids_map().dom().len() >= 1,
        ensures
            match r {
                Ok(v) => exists|i: usize|
                    1 <= i <= self.ids_map().dom().len() && (#[trigger] self.ids_map().contains_key(
                        i,
                    )) && self.ids_map()[i] == v@,
                Err(e) => match e {
                    ListError::InvalidPokemonId(a, b) => 1 <= a <= self.ids_map().dom().len()
                        && !self.ids_map().contains_key(a) && b as int
                        == self.ids_map().dom().len(),
                    _ => false,
                },
            },
    {
        let len = bimap_len(&self.ids);
        let idx = random_in_range(1, len);
        match bimap_get_by_left(&self.ids, idx) {
            Some(v) => Ok(v.clone()),
            None => Err(ListError::InvalidPokemonId(idx, bimap_len(&self.ids))),
        }
    }
}

} // verus!
