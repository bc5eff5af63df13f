//! The closed set of dish categories.

use vstd::prelude::*;
use vstd::string::*;
use crate::text::text_eq;

verus! {

/// The category a dish is served under.
#[derive(Debug, Clone, Copy, PartialEq, Eq, Hash, Structural)]
pub enum DishType {
    Main,
    Side,
    Dessert,
}

impl DishType {
    /// The lowercase word under which the category is stored.
    pub open spec fn spec_identifier(self) -> Seq<char> {
        match self {
            DishType::Main => "main"@,
            DishType::Side => "side"@,
            DishType::Dessert => "dessert"@,
        }
    }

    /// What reading a stored word yields: the category it names, if any.
    pub open spec fn spec_parse(s: Seq<char>) -> Option<DishType> {
        if s == "main"@ {
            Some(DishType::Main)
        } else if s == "side"@ {
            Some(DishType::Side)
        } else if s == "dessert"@ {
            Some(DishType::Dessert)
        } else {
            None
        }
    }

    /// Returns the lowercase word under which the category is stored.
    pub fn get_identifier(&self) -> (s: &'static str)
        ensures
            s@ == self.spec_identifier(),
    {
        match self {
            DishType::Main => "main",
            DishType::Side => "side",
            DishType::Dessert => "dessert",
        }
    }

    /// Returns the lowercase word of the category as an owned text.
    pub fn to_string(&self) -> (s: String)
        ensures
            s@ == self.spec_identifier(),
    {
        String::from_str(self.get_identifier())
    }

    /// Reads a category from the word under which it is stored.
    pub fn parse(s: &str) -> (t: Option<DishType>)
        ensures
            t == DishType::spec_parse(s@),
    {
        if text_eq(s, "main") {
            Some(DishType::Main)
        } else if text_eq(s, "side") {
            Some(DishType::Side)
        } else if text_eq(s, "dessert") {
            Some(DishType::Dessert)
        } else {
            None
        }
    }
}

/// The word of a category is read back as the category.
pub proof fn lemma_identifier_round_trip(t: DishType)
    ensures
        DishType::spec_parse(t.spec_identifier()) == Some(t),
{
    reveal_strlit("main");
    reveal_strlit("side");
    reveal_strlit("dessert");
    assert("main"@.len() == 4 && "side"@.len() == 4 && "dessert"@.len() == 7);
    assert("main"@[0] == 'm' && "side"@[0] == 's');
}

} // verus!
