//! Canonical country names.
//!
//! The two tables spell some countries differently. Every label read from a
//! table goes through [`normalize_country`] before it is stored or compared.

use vstd::prelude::*;
use vstd::string::*;
use crate::text::{same_text, to_chars};

verus! {

/// `alias` is one of the known variant spellings, and `canonical` is the
/// spelling that stands for it. The canonical name of Trinidad and Tobago
/// begins with a space; rows are joined on exact equality, so it stays.
pub open spec fn is_alias(alias: Seq<char>, canonical: Seq<char>) -> bool {
    ||| alias == "Bosnia"@ && canonical == "Bosnia and Herzegovina"@
    ||| alias == "Bosnia Herzegovina"@ && canonical == "Bosnia and Herzegovina"@
    ||| alias == "CAR"@ && canonical == "Central African Republic"@
    ||| alias == "North. Cyprus"@ && canonical == "Northern Cyprus"@
    ||| alias == "Nagorno Karabakh"@ && canonical == "Nagorno-Karabash"@
    ||| alias == "Gambia"@ && canonical == "The Gambia"@
    ||| alias == "Trinidad &Tobago"@ && canonical == " Trinidad and Tobago"@
    ||| alias == "Trinidad & Tobago"@ && canonical == " Trinidad and Tobago"@
    ||| alias == "UAEs"@ && canonical == "UAE"@
}

/// `name` is one of the known variant spellings.
pub open spec fn is_known_alias(name: Seq<char>) -> bool {
    ||| name == "Bosnia"@
    ||| name == "Bosnia Herzegovina"@
    ||| name == "CAR"@
    ||| name == "North. Cyprus"@
    ||| name == "Nagorno Karabakh"@
    ||| name == "Gambia"@
    ||| name == "Trinidad &Tobago"@
    ||| name == "Trinidad & Tobago"@
    ||| name == "UAEs"@
}

/// The canonical spelling of `name`: a known alias is replaced, and every
/// other text stands for itself.
pub open spec fn normalized(name: Seq<char>) -> Seq<char> {
    if name == "Bosnia"@ || name == "Bosnia Herzegovina"@ {
        "Bosnia and Herzegovina"@
    } else if name == "CAR"@ {
        "Central African Republic"@
    } else if name == "North. Cyprus"@ {
        "Northern Cyprus"@
    } else if name == "Nagorno Karabakh"@ {
        "Nagorno-Karabash"@
    } else if name == "Gambia"@ {
        "The Gambia"@
    } else if name == "Trinidad &Tobago"@ || name == "Trinidad & Tobago"@ {
        " Trinidad and Tobago"@
    } else if name == "UAEs"@ {
        "UAE"@
    } else {
        name
    }
}

/// Every known alias is normalized to its canonical name.
pub proof fn lemma_alias_resolves(alias: Seq<char>, canonical: Seq<char>)
    requires
        is_alias(alias, canonical),
    ensures
        normalized(alias) == canonical,
{
    reveal_strlit("Bosnia");
    reveal_strlit("Bosnia Herzegovina");
    reveal_strlit("CAR");
    reveal_strlit("North. Cyprus");
    reveal_strlit("Nagorno Karabakh");
    reveal_strlit("Gambia");
    reveal_strlit("Trinidad &Tobago");
    reveal_strlit("Trinidad & Tobago");
    reveal_strlit("UAEs");
    assert("Bosnia"@.len() == 6);
    assert("Bosnia Herzegovina"@.len() == 18);
    assert("CAR"@.len() == 3);
    assert("North. Cyprus"@.len() == 13);
    assert("Nagorno Karabakh"@.len() == 16);
    assert("Gambia"@.len() == 6);
    assert("Trinidad &Tobago"@.len() == 16);
    assert("Trinidad & Tobago"@.len() == 17);
    assert("UAEs"@.len() == 4);
    assert("Gambia"@[0] != "Bosnia"@[0]);
    assert("Trinidad &Tobago"@[0] != "Nagorno Karabakh"@[0]);
}

/// A name that is no known alias is left as it is.
pub proof fn lemma_unmapped_unchanged(name: Seq<char>)
    requires
        !is_known_alias(name),
    ensures
        normalized(name) == name,
{
}

/// Returns the canonical spelling of `name`.
pub fn normalize_country(name: &str) -> (r: String)
    ensures
        r@ == normalized(name@),
{
    let chars: Vec<char> = to_chars(name);
    let canonical: &str = if same_text(&chars, "Bosnia") || same_text(
        &chars,
        "Bosnia Herzegovina",
    ) {
        "Bosnia and Herzegovina"
    } else if same_text(&chars, "CAR") {
        "Central African Republic"
    } else if same_text(&chars, "North. Cyprus") {
        "Northern Cyprus"
    } else if same_text(&chars, "Nagorno Karabakh") {
        "Nagorno-Karabash"
    } else if same_text(&chars, "Gambia") {
        "The Gambia"
    } else if same_text(&chars, "Trinidad &Tobago") || same_text(&chars, "Trinidad & Tobago") {
        " Trinidad and Tobago"
    } else if same_text(&chars, "UAEs") {
        "UAE"
    } else {
        name
    };
    String::from_str(canonical)
}

} // verus!
