//! Sprite selection and attributes: turning a user's token into a selection,
//! and the form, gender and shininess flags into the path of a sprite asset.

use vstd::prelude::*;
use crate::text::{lower_of, lowercase, str_eq};

verus! {

/// Errors of selection and attribute handling.
pub enum PokemonError {
    /// No sprite is known under the requested name.
    PokemonNotFound(String),
    /// A list lookup failed.
    ListError(crate::list::ListError),
    /// More than one exclusive form flag was set.
    ConflictingForms(String),
    /// A form flag was set that needs another flag with it.
    MissingRequiredFlag(String),
}

/// Regions of the sprite catalogue, each covering a contiguous range of
/// catalogue numbers.
#[derive(Debug, Copy, Clone, PartialEq, Eq, Structural)]
pub enum Region {
    Kanto,
    Johto,
    Hoenn,
    Sinnoh,
    Unova,
    Kalos,
    Alola,
    Galar,
}

/// First catalogue number of a region.
pub open spec fn region_lo(r: Region) -> usize {
    match r {
        Region::Kanto => 1usize,
        Region::Johto => 152usize,
        Region::Hoenn => 252usize,
        Region::Sinnoh => 387usize,
        Region::Unova => 494usize,
        Region::Kalos => 650usize,
        Region::Alola => 722usize,
        Region::Galar => 810usize,
    }
}

/// Last catalogue number of a region.
pub open spec fn region_hi(r: Region) -> usize {
    match r {
        Region::Kanto => 151usize,
        Region::Johto => 251usize,
        Region::Hoenn => 386usize,
        Region::Sinnoh => 493usize,
        Region::Unova => 649usize,
        Region::Kalos => 721usize,
        Region::Alola => 809usize,
        Region::Galar => 905usize,
    }
}

impl Region {
    /// The inclusive range of catalogue numbers the region covers.
    pub fn range(&self) -> (r: std::ops::RangeInclusive<usize>)
        ensures
            r@.start == region_lo(*self),
            r@.end == region_hi(*self),
            r@.exhausted == false,
            region_lo(*self) <= region_hi(*self),
    {
        match self {
            Region::Kanto => std::ops::RangeInclusive::new(1, 151),
            Region::Johto => std::ops::RangeInclusive::new(152, 251),
            Region::Hoenn => std::ops::RangeInclusive::new(252, 386),
            Region::Sinnoh => std::ops::RangeInclusive::new(387, 493),
            Region::Unova => std::ops::RangeInclusive::new(494, 649),
            Region::Kalos => std::ops::RangeInclusive::new(650, 721),
            Region::Alola => std::ops::RangeInclusive::new(722, 809),
            Region::Galar => std::ops::RangeInclusive::new(810, 905),
        }
    }
}

/// What a user asked for: a random sprite, a random sprite of a region, a
/// catalogue number, or a name.
#[derive(PartialEq, Eq)]
pub enum Selection {
    Random,
    Region(Region),
    DexId(usize),
    Name(String),
}

pub open spec fn is_digit(c: char) -> bool {
    '0' as int <= c as int <= '9' as int
}

pub open spec fn digit_val(c: char) -> int {
    c as int - '0' as int
}

pub open spec fn all_digits(s: Seq<char>) -> bool {
    forall|i: int| 0 <= i < s.len() ==> is_digit(#[trigger] s[i])
}

/// The number a run of decimal digits denotes.
pub open spec fn numeral_value(s: Seq<char>) -> int
    decreases s.len(),
{
    if s.len() == 0 {
        0
    } else {
        numeral_value(s.drop_last()) * 10 + digit_val(s.last())
    }
}

/// The digits of a numeral: everything after an optional leading plus sign.
pub open spec fn digits_part(s: Seq<char>) -> Seq<char> {
    if s.len() > 0 && s[0] == '+' {
        s.subrange(1, s.len() as int)
    } else {
        s
    }
}

/// The number a string denotes, if it is an optional plus sign followed by
/// one or more decimal digits whose value fits the machine's word.
pub open spec fn parse_usize_spec(s: Seq<char>) -> Option<int> {
    let d = digits_part(s);
    if d.len() >= 1 && all_digits(d) && numeral_value(d) <= usize::MAX {
        Some(numeral_value(d))
    } else {
        None
    }
}

proof fn lemma_numeral_take_step(d: Seq<char>, k: int)
    requires
        0 <= k < d.len(),
    ensures
        numeral_value(d.take(k + 1)) == numeral_value(d.take(k)) * 10 + digit_val(d[k]),
{
    let t = d.take(k + 1);
    assert(t.drop_last() =~= d.take(k));
    assert(t.last() == d[k]);
}

proof fn lemma_numeral_nonneg(d: Seq<char>)
    requires
        all_digits(d),
    ensures
        numeral_value(d) >= 0,
    decreases d.len(),
{
    if d.len() > 0 {
        assert(all_digits(d.drop_last())) by {
            assert(forall|i: int| 0 <= i < d.len() - 1 ==> d.drop_last()[i] == d[i]);
        }
        lemma_numeral_nonneg(d.drop_last());
    }
}

/// A numeral is at least as large as any of its prefixes.
proof fn lemma_numeral_prefix_le(d: Seq<char>, k: int)
    requires
        all_digits(d),
        0 <= k <= d.len(),
    ensures
        numeral_value(d.take(k)) <= numeral_value(d),
    decreases d.len() - k,
{
    if k == d.len() {
        assert(d.take(k) =~= d);
    } else {
        lemma_numeral_take_step(d, k);
        assert(all_digits(d.take(k))) by {
            assert(forall|i: int| 0 <= i < k ==> d.take(k)[i] == d[i]);
        }
        lemma_numeral_nonneg(d.take(k));
        lemma_numeral_prefix_le(d, k + 1);
    }
}

/// Reads a string as a decimal number the way the standard library does for
/// unsigned machine words: an optional leading plus sign, then one or more
/// digits; too large a value is rejected.
pub fn parse_usize(s: &str) -> (r: Option<usize>)
    ensures
        match r {
            Some(v) => parse_usize_spec(s@) == Some(v as int),
            None => parse_usize_spec(s@) is None,
        },
{
    let n = s.unicode_len();
    if n == 0 {
        return None;
    }
    let start: usize = if s.get_char(0) == '+' {
        1
    } else {
        0
    };
    if start == n {
        return None;
    }
    let ghost d = digits_part(s@);
    assert(d =~= s@.subrange(start as int, n as int));

    let mut v: usize = 0;
    let mut i: usize = start;
    while i < n
        invariant
            n == s@.len(),
            n >= 1,
            start <= 1,
            start as int == (if s@[0] == '+' {
                1int
            } else {
                0int
            }),
            start <= i <= n,
            d == digits_part(s@),
            d == s@.subrange(start as int, n as int),
            all_digits(d.take(i - start)),
            v as int == numeral_value(d.take(i - start)),
        decreases n - i,
    {
        let c = s.get_char(i);
        assert(c == d[i - start]);
        if (c as u32) < ('0' as u32) || (c as u32) > ('9' as u32) {
            assert(!is_digit(d[i - start]));
            assert(!all_digits(d));
            return None;
        }
        let digit = ((c as u32) - ('0' as u32)) as usize;
        assert(digit as int == digit_val(d[i - start]));
        if v > (usize::MAX - digit) / 10 {
            proof {
                assert(v as int * 10 + digit > usize::MAX);
                if all_digits(d) {
                    lemma_numeral_take_step(d, i - start);
                    lemma_numeral_prefix_le(d, i - start + 1);
                    assert(numeral_value(d) > usize::MAX);
                }
            }
            return None;
        }
        assert(v as int * 10 + digit <= usize::MAX);
        proof {
            lemma_numeral_take_step(d, i - start);
        }
        v = v * 10 + digit;
        i = i + 1;
        assert(all_digits(d.take(i - start))) by {
            assert(d.take(i - start) =~= d.take(i - start - 1).push(d[i - start - 1]));
        }
    }
    assert(d.take(n - start) =~= d);
    Some(v)
}

impl Selection {
    /// Reads a raw argument: a number selects by catalogue number (zero
    /// meaning a random sprite); otherwise the argument, lowercased, may
    /// name a random draw or a region; anything else is taken as a name.
    pub fn parse(arg: String) -> (r: Self)
        ensures
            ({
                let s = arg@;
                match parse_usize_spec(s) {
                    Some(v) => (v == 0 ==> r == Selection::Random) && (v != 0 ==> r
                        == Selection::DexId(v as usize)),
                    None => {
                        let low = lower_of(s);
                        if low == "random"@ {
                            r == Selection::Random
                        } else if low == "kanto"@ {
                            r == Selection::Region(Region::Kanto)
                        } else if low == "johto"@ {
                            r == Selection::Region(Region::Johto)
                        } else if low == "hoenn"@ {
                            r == Selection::Region(Region::Hoenn)
                        } else if low == "sinnoh"@ {
                            r == Selection::Region(Region::Sinnoh)
                        } else if low == "unova"@ {
                            r == Selection::Region(Region::Unova)
                        } else if low == "kalos"@ {
                            r == Selection::Region(Region::Kalos)
                        } else if low == "alola"@ {
                            r == Selection::Region(Region::Alola)
                        } else if low == "galar"@ {
                            r == Selection::Region(Region::Galar)
                        } else {
                            r == Selection::Name(arg)
                        }
                    },
                }
            }),
    {
        match parse_usize(arg.as_str()) {
            Some(dex_id) => {
                if dex_id == 0 {
                    Selection::Random
                } else {
                    Selection::DexId(dex_id)
                }
            },
            None => {
                let low = lowercase(arg.as_str());
                if str_eq(low.as_str(), "random") {
                    Selection::Random
                } else if str_eq(low.as_str(), "kanto") {
                    Selection::Region(Region::Kanto)
                } else if str_eq(low.as_str(), "johto") {
                    Selection::Region(Region::Johto)
                } else if str_eq(low.as_str(), "hoenn") {
                    Selection::Region(Region::Hoenn)
                } else if str_eq(low.as_str(), "sinnoh") {
                    Selection::Region(Region::Sinnoh)
                } else if str_eq(low.as_str(), "unova") {
                    Selection::Region(Region::Unova)
                } else if str_eq(low.as_str(), "kalos") {
                    Selection::Region(Region::Kalos)
                } else if str_eq(low.as_str(), "alola") {
                    Selection::Region(Region::Alola)
                } else if str_eq(low.as_str(), "galar") {
                    Selection::Region(Region::Galar)
                } else {
                    Selection::Name(arg)
                }
            },
        }
    }
}

impl Selection {
    /// Resolves the selection to a sprite filename: a random draw over the
    /// whole catalogue or a region, a lookup by catalogue number, or the
    /// name as given.
    pub fn eval(self, list: &crate::list::List) -> (r: Result<String, PokemonError>)
        requires
            self == Selection::Random ==> list.ids_map().dom().len() >= 1,
        ensures
            match self {
                Selection::Random => match r {
                    Ok(v) => exists|i: usize|
                        1 <= i <= list.ids_map().dom().len() && (
                        #[trigger] list.ids_map().contains_key(i)) && list.ids_map()[i] == v@,
                    Err(e) => e matches PokemonError::ListError(le) && (le matches
                        crate::list::ListError::InvalidPokemonId(a, b) && 1 <= a
                        <= list.ids_map().dom().len() && !list.ids_map().contains_key(a)
                        && b as int == list.ids_map().dom().len()),
                },
                Selection::Region(reg) => match r {
                    Ok(v) => exists|i: usize|
                        region_lo(reg) <= i <= region_hi(reg) && (
                        #[trigger] list.ids_map().contains_key(i)) && list.ids_map()[i] == v@,
                    Err(e) => e matches PokemonError::ListError(le) && (le matches
                        crate::list::ListError::InvalidPokemonId(a, b) && region_lo(reg) <= a
                        <= region_hi(reg) && !list.ids_map().contains_key(a) && b as int
                        == list.ids_map().dom().len()),
                },
                Selection::DexId(id) => match r {
                    Ok(v) => list.ids_map().contains_key(id) && v@ == list.ids_map()[id],
                    Err(e) => !list.ids_map().contains_key(id) && (e matches
                        PokemonError::ListError(le) && (le matches
                        crate::list::ListError::InvalidPokemonId(a, b) && a == id && b as int
                        == list.ids_map().dom().len())),
                },
                Selection::Name(name) => r == Result::<String, PokemonError>::Ok(name),
            },
    {
        match self {
            Selection::Random => match list.random() {
                Ok(v) => Ok(v),
                Err(e) => Err(PokemonError::ListError(e)),
            },
            Selection::Region(region) => match list.get_by_region(&region) {
                Ok(v) => Ok(v),
                Err(e) => Err(PokemonError::ListError(e)),
            },
            Selection::DexId(id) => match list.get_by_id(id) {
                Ok(v) => Ok(v.clone()),
                Err(e) => Err(PokemonError::ListError(e)),
            },
            Selection::Name(name) => Ok(name),
        }
    }
}

/// Builds a set of attributes, validating the form at the end.
pub struct AttributesBuilder {
    form: String,
    female: bool,
    shiny: bool,
}

impl AttributesBuilder {
    pub closed spec fn form_spec(&self) -> Seq<char> {
        self.form@
    }

    pub closed spec fn female_spec(&self) -> bool {
        self.female
    }

    pub closed spec fn shiny_spec(&self) -> bool {
        self.shiny
    }

    /// A builder with no form and both flags off.
    pub fn new() -> (r: Self)
        ensures
            r.form_spec() == Seq::<char>::empty(),
            r.female_spec() == false,
            r.shiny_spec() == false,
    {
        AttributesBuilder { form: String::new(), female: false, shiny: false }
    }

    pub fn with_form(self, form: &str) -> (r: Self)
        ensures
            r.form_spec() == form@,
            r.female_spec() == self.female_spec(),
            r.shiny_spec() == self.shiny_spec(),
    {
        AttributesBuilder { form: String::from_str(form), female: self.female, shiny: self.shiny }
    }

    pub fn with_female(self, female: bool) -> (r: Self)
        ensures
            r.form_spec() == self.form_spec(),
            r.female_spec() == female,
            r.shiny_spec() == self.shiny_spec(),
    {
        AttributesBuilder { form: self.form, female, shiny: self.shiny }
    }

    pub fn with_shiny(self, shiny: bool) -> (r: Self)
        ensures
            r.form_spec() == self.form_spec(),
            r.female_spec() == self.female_spec(),
            r.shiny_spec() == shiny,
    {
        AttributesBuilder { form: self.form, female: self.female, shiny }
    }

    /// Validates the form: a noble form is only allowed together with a
    /// hisui form.
    pub fn build(self) -> (r: Result<Attributes, PokemonError>)
        ensures
            ({
                if crate::text::contains_seq(self.form_spec(), "noble"@)
                    && !crate::text::contains_seq(self.form_spec(), "hisui"@) {
                    r matches Err(PokemonError::MissingRequiredFlag(m)) && m@
                        == "--noble requires --hisui"@
                } else {
                    r matches Ok(a) && a.form@ == self.form_spec() && a.female
                        == self.female_spec() && a.shiny == self.shiny_spec()
                }
            }),
    {
        if crate::text::str_contains(self.form.as_str(), "noble") && !crate::text::str_contains(
            self.form.as_str(),
            "hisui",
        ) {
            return Err(
                PokemonError::MissingRequiredFlag(String::from_str("--noble requires --hisui")),
            );
        }
        Ok(Attributes { form: self.form, female: self.female, shiny: self.shiny })
    }
}

/// A sprite's attributes: its form, and whether the female and shiny
/// variants are wanted.
pub struct Attributes {
    pub form: String,
    pub female: bool,
    pub shiny: bool,
}

/// The views of a sequence of string slices.
pub open spec fn strs_views(v: Seq<&str>) -> Seq<Seq<char>> {
    v.map_values(|s: &str| s@)
}

/// The names of the exclusive form flags that are set, in their fixed
/// order.
pub open spec fn active_form_flags(args: &crate::cli::Args) -> Seq<Seq<char>> {
    let e = Seq::<Seq<char>>::empty();
    (if args.mega {
        seq!["mega"@]
    } else {
        e
    }) + (if args.mega_x {
        seq!["mega-x"@]
    } else {
        e
    }) + (if args.mega_y {
        seq!["mega-y"@]
    } else {
        e
    }) + (if args.alolan {
        seq!["alola"@]
    } else {
        e
    }) + (if args.gmax {
        seq!["gmax"@]
    } else {
        e
    }) + (if args.hisui {
        seq!["hisui"@]
    } else {
        e
    }) + (if args.galar {
        seq!["galar"@]
    } else {
        e
    })
}

/// The parts joined with a comma and a space between each pair.
pub open spec fn joined(parts: Seq<Seq<char>>) -> Seq<char>
    decreases parts.len(),
{
    if parts.len() == 0 {
        Seq::empty()
    } else if parts.len() == 1 {
        parts[0]
    } else {
        joined(parts.drop_last()) + ", "@ + parts.last()
    }
}

/// The form once the flags are resolved: the single set flag's name, or
/// else the free-form form.
pub open spec fn chosen_form(args: &crate::cli::Args) -> Seq<char> {
    let act = active_form_flags(args);
    if act.len() == 0 {
        args.form@
    } else {
        act[0]
    }
}

/// The form with the noble suffix applied when asked for.
pub open spec fn final_form(args: &crate::cli::Args) -> Seq<char> {
    let f = chosen_form(args);
    if args.noble {
        if f.len() == 0 {
            "hisui-noble"@
        } else {
            f + "-noble"@
        }
    } else {
        f
    }
}

proof fn lemma_joined_step(parts: Seq<Seq<char>>, k: int)
    requires
        1 <= k < parts.len(),
    ensures
        joined(parts.take(k + 1)) == joined(parts.take(k)) + ", "@ + parts[k],
{
    let t = parts.take(k + 1);
    assert(t.drop_last() =~= parts.take(k));
    assert(t.last() == parts[k]);
}

impl Attributes {
    /// Resolves the flags into attributes: at most one exclusive form flag
    /// may be set; the noble suffix needs a hisui form under it.  The shiny
    /// flag may also come from an outside roll.
    #[verifier::rlimit(60)]
    pub fn new(args: &crate::cli::Args, rolled_shiny: bool) -> (r: Result<Self, PokemonError>)
        ensures
            ({
                let act = active_form_flags(args);
                if act.len() >= 2 {
                    r matches Err(PokemonError::ConflictingForms(m)) && m@
                        == "Multiple form flags specified: "@ + joined(act)
                } else {
                    let f = final_form(args);
                    if crate::text::contains_seq(f, "noble"@) && !crate::text::contains_seq(
                        f,
                        "hisui"@,
                    ) {
                        r matches Err(PokemonError::MissingRequiredFlag(m)) && m@
                            == "--noble requires --hisui"@
                    } else {
                        r matches Ok(a) && a.form@ == f && a.female == args.female && a.shiny == (
                        args.shiny || rolled_shiny)
                    }
                }
            }),
    {
        let mut builder = AttributesBuilder::new().with_female(args.female).with_shiny(
            args.shiny || rolled_shiny,
        );

        let ghost e = Seq::<Seq<char>>::empty();
        let ghost mega_part = if args.mega { seq!["mega"@] } else { e };
        let ghost mega_x_part = if args.mega_x { seq!["mega-x"@] } else { e };
        let ghost mega_y_part = if args.mega_y { seq!["mega-y"@] } else { e };
        let ghost alolan_part = if args.alolan { seq!["alola"@] } else { e };
        let ghost gmax_part = if args.gmax { seq!["gmax"@] } else { e };
        let ghost hisui_part = if args.hisui { seq!["hisui"@] } else { e };
        let ghost galar_part = if args.galar { seq!["galar"@] } else { e };

        let mut active_flags: Vec<&str> = Vec::new();
        if args.mega {
            active_flags.push("mega");
        }
        assert(strs_views(active_flags@) =~= mega_part);
        if args.mega_x {
            active_flags.push("mega-x");
        }
        assert(strs_views(active_flags@) =~= mega_part + mega_x_part);
        if args.mega_y {
            active_flags.push("mega-y");
        }
        assert(strs_views(active_flags@) =~= mega_part + mega_x_part + mega_y_part);
        if args.alolan {
            active_flags.push("alola");
        }
        assert(strs_views(active_flags@) =~= mega_part + mega_x_part + mega_y_part + alolan_part);
        if args.gmax {
            active_flags.push("gmax");
        }
        assert(strs_views(active_flags@) =~= mega_part + mega_x_part + mega_y_part + alolan_part + gmax_part);
        if args.hisui {
            active_flags.push("hisui");
        }
        assert(strs_views(active_flags@) =~= mega_part + mega_x_part + mega_y_part + alolan_part + gmax_part + hisui_part);
        if args.galar {
            active_flags.push("galar");
        }
        assert(strs_views(active_flags@) =~= active_form_flags(args));
        let ghost act = active_form_flags(args);

        if active_flags.len() == 0 {
            if !args.form.as_str().is_empty() {
                builder = builder.with_form(args.form.as_str());
            }
            assert(builder.form_spec() == chosen_form(args));
        } else if active_flags.len() == 1 {
            builder = builder.with_form(active_flags[0]);
            assert(strs_views(active_flags@)[0] == active_flags@[0]@);
            assert(builder.form_spec() == chosen_form(args));
        } else {
            let mut msg = String::from_str("Multiple form flags specified: ");
            let ghost prefix = msg@;
            let n_act = active_flags.len();
            let mut i: usize = 0;
            while i < n_act
                invariant
                    n_act == active_flags@.len(),
                    n_act >= 2,
                    i <= n_act,
                    act == strs_views(active_flags@),
                    msg@ == prefix + joined(act.take(i as int)),
                decreases n_act - i,
            {
                if i > 0 {
                    msg.append(", ");
                }
                msg.append(active_flags[i]);
                proof {
                    assert(act[i as int] == active_flags@[i as int]@);
                    if i == 0 {
                        assert(act.take(1).len() == 1);
                        assert(act.take(1)[0] == act[0]);
                        assert(joined(act.take(0int)) == Seq::<char>::empty());
                        assert(prefix + Seq::<char>::empty() =~= prefix);
                        assert(msg@ =~= prefix + joined(act.take(1)));
                    } else {
                        lemma_joined_step(act, i as int);
                        assert(msg@ =~= prefix + joined(act.take(i as int + 1)));
                    }
                }
                i = i + 1;
            }
            assert(act.take(n_act as int) =~= act);
            return Err(PokemonError::ConflictingForms(msg));
        }

        if args.noble {
            let current_form = if builder.form.as_str().is_empty() {
                String::from_str("hisui-noble")
            } else {
                let mut f = builder.form.clone();
                f.append("-noble");
                f
            };
            builder = builder.with_form(current_form.as_str());
        }
        assert(builder.form_spec() == final_form(args));
        builder.build()
    }
}

/// Spaces and underscores turned to dashes.
pub open spec fn dashed(s: Seq<char>) -> Seq<char>
    decreases s.len(),
{
    if s.len() == 0 {
        Seq::empty()
    } else {
        let rest = dashed(s.drop_last());
        let c = s.last();
        if c == ' ' || c == '_' {
            rest.push('-')
        } else {
            rest.push(c)
        }
    }
}

/// Dots, apostrophes and colons dropped.
pub open spec fn depunct(s: Seq<char>) -> Seq<char>
    decreases s.len(),
{
    if s.len() == 0 {
        Seq::empty()
    } else {
        let rest = depunct(s.drop_last());
        let c = s.last();
        if c == '.' || c == '\'' || c == ':' {
            rest
        } else {
            rest.push(c)
        }
    }
}

/// The cleaned middle of a sprite path: dashes for spaces, the sanitizer's
/// output stripped of punctuation, lowercased and trimmed.
pub open spec fn path_core(base: Seq<char>) -> Seq<char> {
    crate::text::trim_of(lower_of(depunct(crate::list::sanitize_spec(dashed(base)))))
}

/// The full path of a sprite asset for the given attributes and name.
pub open spec fn path_spec(a: Attributes, name: Seq<char>, random: bool, region: bool) -> Seq<
    char,
> {
    let is_random = random || region;
    let base = if a.form@.len() > 0 && !is_random {
        name + "-"@ + a.form@
    } else {
        name
    };
    (if a.shiny {
        "shiny"@
    } else {
        "regular"@
    }) + "/"@ + (if a.female && !is_random {
        "female/"@
    } else {
        Seq::empty()
    }) + path_core(base) + ".png"@
}

/// Spaces and underscores turned to dashes, character by character.
fn to_dashes(s: &str) -> (r: String)
    ensures
        r@ == dashed(s@),
{
    let n = s.unicode_len();
    let mut out = String::new();
    let mut i: usize = 0;
    while i < n
        invariant
            n == s@.len(),
            i <= n,
            out@ == dashed(s@.take(i as int)),
        decreases n - i,
    {
        let c = s.get_char(i);
        proof {
            assert(s@.take(i as int + 1).drop_last() =~= s@.take(i as int));
            assert(s@.take(i as int + 1).last() == s@[i as int]);
        }
        if c == ' ' || c == '_' {
            crate::text::push_char(&mut out, '-');
        } else {
            crate::text::push_char(&mut out, c);
        }
        i = i + 1;
    }
    assert(s@.take(n as int) =~= s@);
    out
}

/// Dots, apostrophes and colons dropped, character by character.
fn strip_punct(s: &str) -> (r: String)
    ensures
        r@ == depunct(s@),
{
    let n = s.unicode_len();
    let mut out = String::new();
    let mut i: usize = 0;
    while i < n
        invariant
            n == s@.len(),
            i <= n,
            out@ == depunct(s@.take(i as int)),
        decreases n - i,
    {
        let c = s.get_char(i);
        proof {
            assert(s@.take(i as int + 1).drop_last() =~= s@.take(i as int));
            assert(s@.take(i as int + 1).last() == s@[i as int]);
        }
        if c == '.' || c == '\'' || c == ':' {
        } else {
            crate::text::push_char(&mut out, c);
        }
        i = i + 1;
    }
    assert(s@.take(n as int) =~= s@);
    out
}

impl Attributes {
    /// The path of the sprite asset for this name: the shiny or regular
    /// tree, the female subtree when asked for and applicable, and the
    /// cleaned filename with the form appended unless the pick was random.
    pub fn path(&self, name: &str, random: bool, region: bool) -> (r: String)
        ensures
            r@ == path_spec(*self, name@, random, region),
    {
        let is_random = random || region;

        let mut filename = String::from_str(name);
        if !self.form.as_str().is_empty() && !is_random {
            filename.append("-");
            filename.append(self.form.as_str());
        }
        assert(filename@ == (if self.form@.len() > 0 && !is_random {
            name@ + "-"@ + self.form@
        } else {
            name@
        }));

        let with_dashes = to_dashes(filename.as_str());
        let sanitized = crate::list::sanitize_filename(with_dashes.as_str());
        let depuncted = strip_punct(sanitized.as_str());
        let lowered = lowercase(depuncted.as_str());
        let trimmed_name = crate::text::trimmed(lowered.as_str());

        let mut out = String::from_str(if self.shiny {
            "shiny"
        } else {
            "regular"
        });
        out.append("/");
        if self.female && !is_random {
            out.append("female/");
        }
        out.append(trimmed_name.as_str());
        out.append(".png");
        assert(out@ =~= path_spec(*self, name@, random, region));
        out
    }
}

} // verus!
