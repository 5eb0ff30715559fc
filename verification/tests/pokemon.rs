use pokeget::cli::Args;
use pokeget::pokemon::{Attributes, AttributesBuilder, PokemonError, Region, Selection};

fn no_args() -> Args {
    Args {
        pokemon: Vec::new(),
        hide_name: false,
        form: String::new(),
        mega: false,
        mega_x: false,
        mega_y: false,
        alolan: false,
        gmax: false,
        hisui: false,
        galar: false,
        noble: false,
        female: false,
        shiny: false,
    }
}

fn plain_attributes() -> Attributes {
    Attributes { form: String::new(), female: false, shiny: false }
}

#[test]
fn parse_numbers() {
    assert!(matches!(Selection::parse("25".to_string()), Selection::DexId(25)));
    assert!(matches!(Selection::parse("0".to_string()), Selection::Random));
    assert!(matches!(Selection::parse("+7".to_string()), Selection::DexId(7)));
}

#[test]
fn parse_keywords_fold_case() {
    assert!(matches!(Selection::parse("random".to_string()), Selection::Random));
    assert!(matches!(Selection::parse("RANDOM".to_string()), Selection::Random));
    assert!(matches!(
        Selection::parse("Kanto".to_string()),
        Selection::Region(Region::Kanto)
    ));
    assert!(matches!(
        Selection::parse("galar".to_string()),
        Selection::Region(Region::Galar)
    ));
}

#[test]
fn parse_names_fall_through() {
    match Selection::parse("pikachu".to_string()) {
        Selection::Name(n) => assert_eq!(n, "pikachu"),
        _ => panic!("expected a name"),
    }
    // a number too large for the machine's word is treated as a name
    let huge = "999999999999999999999999999999".to_string();
    match Selection::parse(huge.clone()) {
        Selection::Name(n) => assert_eq!(n, huge),
        _ => panic!("expected a name"),
    }
}

#[test]
fn region_ranges() {
    assert_eq!(Region::Kanto.range(), 1..=151);
    assert_eq!(Region::Johto.range(), 152..=251);
    assert_eq!(Region::Galar.range(), 810..=905);
}

#[test]
fn builder_collects_flags() {
    let attributes = match AttributesBuilder::new()
        .with_form("mega")
        .with_female(true)
        .with_shiny(true)
        .build()
    {
        Ok(a) => a,
        Err(_) => panic!("expected attributes"),
    };
    assert_eq!(attributes.form, "mega");
    assert!(attributes.female);
    assert!(attributes.shiny);
}

#[test]
fn builder_rejects_noble_without_hisui() {
    match AttributesBuilder::new().with_form("noble").build() {
        Err(PokemonError::MissingRequiredFlag(m)) => {
            assert_eq!(m, "--noble requires --hisui")
        },
        _ => panic!("expected a missing-flag error"),
    }
}

#[test]
fn builder_accepts_hisui_noble() {
    match AttributesBuilder::new().with_form("hisui-noble").build() {
        Ok(a) => assert_eq!(a.form, "hisui-noble"),
        _ => panic!("expected attributes"),
    }
}

#[test]
fn attributes_single_flag() {
    let mut args = no_args();
    args.gmax = true;
    match Attributes::new(&args, false) {
        Ok(a) => {
            assert_eq!(a.form, "gmax");
            assert!(!a.shiny);
        },
        _ => panic!("expected attributes"),
    }
}

#[test]
fn attributes_conflicting_flags() {
    let mut args = no_args();
    args.mega = true;
    args.gmax = true;
    match Attributes::new(&args, false) {
        Err(PokemonError::ConflictingForms(m)) => {
            assert_eq!(m, "Multiple form flags specified: mega, gmax")
        },
        _ => panic!("expected a conflict"),
    }
}

#[test]
fn attributes_noble_needs_hisui() {
    let mut args = no_args();
    args.noble = true;
    args.galar = true;
    match Attributes::new(&args, false) {
        Err(PokemonError::MissingRequiredFlag(m)) => {
            assert_eq!(m, "--noble requires --hisui")
        },
        _ => panic!("expected a missing-flag error"),
    }
}

#[test]
fn attributes_noble_with_hisui() {
    let mut args = no_args();
    args.noble = true;
    args.hisui = true;
    match Attributes::new(&args, false) {
        Ok(a) => assert_eq!(a.form, "hisui-noble"),
        _ => panic!("expected attributes"),
    }
}

#[test]
fn attributes_noble_alone_defaults_to_hisui() {
    let mut args = no_args();
    args.noble = true;
    match Attributes::new(&args, false) {
        Ok(a) => assert_eq!(a.form, "hisui-noble"),
        _ => panic!("expected attributes"),
    }
}

#[test]
fn attributes_rolled_shiny() {
    let args = no_args();
    match Attributes::new(&args, true) {
        Ok(a) => assert!(a.shiny),
        _ => panic!("expected attributes"),
    }
}

#[test]
fn path_plain() {
    let a = plain_attributes();
    assert_eq!(a.path("bulbasaur", false, false), "regular/bulbasaur.png");
}

#[test]
fn path_shiny_and_female() {
    let mut a = plain_attributes();
    a.shiny = true;
    assert_eq!(a.path("eevee", false, false), "shiny/eevee.png");
    a.shiny = false;
    a.female = true;
    assert_eq!(a.path("eevee", false, false), "regular/female/eevee.png");
    // a random pick ignores the female subtree
    assert_eq!(a.path("eevee", true, false), "regular/eevee.png");
}

#[test]
fn path_appends_form() {
    let mut a = plain_attributes();
    a.form = "mega".to_string();
    assert_eq!(a.path("charizard", false, false), "regular/charizard-mega.png");
    // a random or region pick ignores the form
    assert_eq!(a.path("charizard", true, false), "regular/charizard.png");
    assert_eq!(a.path("charizard", false, true), "regular/charizard.png");
}

#[test]
fn path_cleans_names() {
    let a = plain_attributes();
    assert_eq!(a.path("Mr. Mime", false, false), "regular/mr-mime.png");
    assert_eq!(a.path("Farfetch'd", false, false), "regular/farfetchd.png");
    // path separators are sanitized away
    assert_eq!(a.path("a/b", false, false), "regular/a-b.png");
    // trailing non-breaking space survives sanitizing but is trimmed
    assert_eq!(a.path("eevee\u{00a0}", false, false), "regular/eevee.png");
}
