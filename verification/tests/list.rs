use pokeget::list::{sanitize_filename, List, ListError};
use pokeget::pokemon::{PokemonError, Selection};

const DATA: &[u8] = b"Bulbasaur,bulbasaur\nIvysaur,ivysaur\nFarfetch'd,farfetchd\n";

fn catalogue() -> List {
    match List::read(DATA) {
        Ok(l) => l,
        Err(_) => panic!("catalogue data should parse"),
    }
}

#[test]
fn read_and_get_by_id() {
    let list = catalogue();
    match list.get_by_id(1) {
        Ok(name) => assert_eq!(name, "bulbasaur"),
        Err(_) => panic!("entry 1 exists"),
    }
    match list.get_by_id(3) {
        Ok(name) => assert_eq!(name, "farfetchd"),
        Err(_) => panic!("entry 3 exists"),
    }
    match list.get_by_id(4) {
        Err(ListError::InvalidPokemonId(id, len)) => {
            assert_eq!(id, 4);
            assert_eq!(len, 3);
        },
        _ => panic!("entry 4 does not exist"),
    }
}

#[test]
fn read_rejects_bad_data() {
    // a record with a single field cannot be a (name, filename) pair
    let r = List::read(b"Bulbasaur,bulbasaur\nlonely\n");
    assert!(matches!(r, Err(ListError::CsvParseError(_))));
}

#[test]
fn format_name_uses_recorded_names() {
    let list = catalogue();
    assert_eq!(list.format_name("bulbasaur"), "Bulbasaur");
    assert_eq!(list.format_name("farfetchd"), "Farfetch'd");
}

#[test]
fn format_name_falls_back_to_title_case() {
    let list = catalogue();
    assert_eq!(list.format_name("mr-mime"), "Mr Mime");
    assert_eq!(list.format_name("sirfetch'd"), "Sirfetchd");
}

#[test]
fn random_draws_a_listed_filename() {
    let list = catalogue();
    for _ in 0..20 {
        match list.random() {
            Ok(name) => {
                assert!(name == "bulbasaur" || name == "ivysaur" || name == "farfetchd")
            },
            Err(_) => panic!("all numbers up to the size are listed"),
        }
    }
}

#[test]
fn get_by_region_stays_in_range() {
    let list = catalogue();
    match list.get_by_region(&pokeget::pokemon::Region::Kanto) {
        Ok(name) => {
            assert!(name == "bulbasaur" || name == "ivysaur" || name == "farfetchd")
        },
        Err(ListError::InvalidPokemonId(id, len)) => {
            assert!((1..=151).contains(&id));
            assert_eq!(len, 3);
        },
        _ => panic!("unexpected error"),
    }
}

#[test]
fn eval_resolves_selections() {
    let list = catalogue();
    match Selection::DexId(2).eval(&list) {
        Ok(name) => assert_eq!(name, "ivysaur"),
        Err(_) => panic!("entry 2 exists"),
    }
    match Selection::DexId(9).eval(&list) {
        Err(PokemonError::ListError(ListError::InvalidPokemonId(id, len))) => {
            assert_eq!(id, 9);
            assert_eq!(len, 3);
        },
        _ => panic!("entry 9 does not exist"),
    }
    match Selection::Name("snorlax".to_string()).eval(&list) {
        Ok(name) => assert_eq!(name, "snorlax"),
        Err(_) => panic!("names pass through"),
    }
    match Selection::Random.eval(&list) {
        Ok(name) => {
            assert!(name == "bulbasaur" || name == "ivysaur" || name == "farfetchd")
        },
        Err(_) => panic!("all numbers up to the size are listed"),
    }
}

#[test]
fn duplicate_filenames_keep_the_newest_pair() {
    // inserting the same filename again removes the older pair
    let list = match List::read(b"Old,same\nNew,same\n") {
        Ok(l) => l,
        Err(_) => panic!("data parses"),
    };
    assert!(matches!(list.get_by_id(1), Err(ListError::InvalidPokemonId(1, 1))));
    match list.get_by_id(2) {
        Ok(name) => assert_eq!(name, "same"),
        Err(_) => panic!("the newer pair stays"),
    }
}

#[test]
fn sanitize_replaces_illegal_characters() {
    assert_eq!(sanitize_filename("a/b"), "a-b");
    assert_eq!(sanitize_filename("a\\b:c"), "a-b-c");
    assert_eq!(sanitize_filename("plain-name"), "plain-name");
}
