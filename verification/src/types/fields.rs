use vstd::prelude::*;

use crate::config::opt_view;
use crate::text::{comma_items, split_commas, str_eq, strings_view, tokenize, tokens, Separators};
use crate::unitfile::{get_spec, DirectiveLines, UnitFile};

verus! {

pub type Directives = Map<Seq<char>, DirectiveLines>;

/// A list of names in a unit file: comma- or whitespace-separated, empty
/// items dropped; an absent field is the empty list.
pub open spec fn list_spec(m: Directives, section: Seq<char>, key: Seq<char>) -> Seq<Seq<char>> {
    match get_spec(m, section, key) {
        None => seq![],
        Some(s) => tokens(s, Separators::CommaOrWhitespace),
    }
}

/// A comma-separated list in a unit file: the items between the commas,
/// each with its whitespace dropped; an absent field is the empty list.
pub open spec fn comma_list_spec(m: Directives, section: Seq<char>, key: Seq<char>) -> Seq<Seq<char>> {
    match get_spec(m, section, key) {
        None => seq![],
        Some(s) => comma_items(s),
    }
}

/// Whether a list of jig names (separated by commas or spaces) names one of
/// the loaded jigs.
pub open spec fn names_loaded_jig(list: Seq<char>, jigs: Seq<Seq<char>>) -> bool {
    exists|i: int|
        0 <= i < tokens(list, Separators::CommaOrSpace).len() && jigs.contains(
            #[trigger] tokens(list, Separators::CommaOrSpace)[i],
        )
}

/// A unit is compatible with the loaded jigs when its `key` field is absent
/// or names one of them.
pub open spec fn compatible_spec(m: Directives, section: Seq<char>, key: Seq<char>, jigs: Seq<Seq<char>>) -> bool {
    match get_spec(m, section, key) {
        None => true,
        Some(list) => names_loaded_jig(list, jigs),
    }
}

/// The string value of an optional field, or `default`.
pub open spec fn or_default(o: Option<Seq<char>>, default: Seq<char>) -> Seq<char> {
    match o {
        Some(s) => s,
        None => default,
    }
}

/// The first of two optional values that is present.
pub open spec fn first_of(a: Option<Seq<char>>, b: Option<Seq<char>>) -> Option<Seq<char>> {
    match a {
        Some(s) => Some(s),
        None => b,
    }
}

/// Whether `name` is one of `names`.
pub fn contains_name(names: &Vec<String>, name: &str) -> (r: bool)
    ensures
        r == strings_view(names@).contains(name@),
{
    let mut i: usize = 0;
    while i < names.len()
        invariant
            i <= names.len(),
            forall|j: int| 0 <= j < i ==> names@[j]@ != name@,
        decreases names.len() - i,
    {
        if str_eq(names[i].as_str(), name) {
            assert(strings_view(names@)[i as int] == name@);
            return true;
        }
        i = i + 1;
    }
    assert forall|j: int| 0 <= j < strings_view(names@).len() implies strings_view(names@)[j]
        != name@ by {
        assert(strings_view(names@)[j] == names@[j]@);
    }
    false
}

/// The list of names in `key` of `section` (see `list_spec`).
pub fn get_list(uf: &UnitFile, section: &str, key: &str) -> (r: Vec<String>)
    ensures
        strings_view(r@) == list_spec(uf@, section@, key@),
{
    match uf.get(section, key) {
        None => {
            let v: Vec<String> = Vec::new();
            assert(strings_view(v@) =~= seq![]);
            v
        },
        Some(s) => tokenize(s.as_str(), Separators::CommaOrWhitespace),
    }
}

/// The comma-separated list in `key` of `section` (see `comma_list_spec`).
pub fn get_comma_list(uf: &UnitFile, section: &str, key: &str) -> (r: Vec<String>)
    ensures
        strings_view(r@) == comma_list_spec(uf@, section@, key@),
{
    match uf.get(section, key) {
        None => {
            let v: Vec<String> = Vec::new();
            assert(strings_view(v@) =~= seq![]);
            v
        },
        Some(s) => split_commas(s.as_str()),
    }
}

/// Whether `list` names one of `jigs` (see `names_loaded_jig`).
pub fn names_a_loaded_jig(list: &str, jigs: &Vec<String>) -> (r: bool)
    ensures
        r == names_loaded_jig(list@, strings_view(jigs@)),
{
    let names = tokenize(list, Separators::CommaOrSpace);
    let mut i: usize = 0;
    while i < names.len()
        invariant
            i <= names.len(),
            strings_view(names@) == tokens(list@, Separators::CommaOrSpace),
            forall|j: int|
                0 <= j < i ==> !strings_view(jigs@).contains(
                    #[trigger] tokens(list@, Separators::CommaOrSpace)[j],
                ),
        decreases names.len() - i,
    {
        assert(strings_view(names@)[i as int] == names@[i as int]@);
        if contains_name(jigs, names[i].as_str()) {
            return true;
        }
        i = i + 1;
    }
    false
}

/// Whether the unit is compatible with the loaded jigs (see
/// `compatible_spec`).
pub fn is_compatible(uf: &UnitFile, section: &str, key: &str, jigs: &Vec<String>) -> (r: bool)
    ensures
        r == compatible_spec(uf@, section@, key@, strings_view(jigs@)),
{
    match uf.get(section, key) {
        None => true,
        Some(list) => names_a_loaded_jig(list.as_str(), jigs),
    }
}

/// An owned copy of a string slice.
pub fn own(s: &str) -> (r: String)
    ensures
        r@ == s@,
{
    s.to_string()
}

/// The value of a field, or `default` where it is absent.
pub fn get_or(uf: &UnitFile, section: &str, key: &str, default: &str) -> (r: String)
    ensures
        r@ == or_default(get_spec(uf@, section@, key@), default@),
{
    match uf.get(section, key) {
        Some(s) => s,
        None => own(default),
    }
}

/// The value of the first of two fields that is present.
pub fn get_first(uf: &UnitFile, section: &str, key1: &str, key2: &str) -> (r: Option<String>)
    ensures
        opt_view(r) == first_of(get_spec(uf@, section@, key1@), get_spec(uf@, section@, key2@)),
{
    match uf.get(section, key1) {
        Some(s) => Some(s),
        None => uf.get(section, key2),
    }
}

} // verus!
