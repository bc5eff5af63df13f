//! The closed set of dining halls and their stable identifiers.

use vstd::prelude::*;
use vstd::string::*;
use crate::text::{lex_le, lex_lt, text_eq};

verus! {

/// A dining hall.
#[derive(Debug, Clone, Copy, PartialEq, Eq, Hash, Structural)]
pub enum Canteen {
    Forum,
    Academica,
    Picknick,
    BonaVista,
    GrillCafe,
    ZM2,
    Basilica,
    Atrium,
}

/// Number of dining halls.
pub const CANTEEN_COUNT: u8 = 8;

impl Canteen {
    /// The lowercase key under which the hall is stored and sent.
    pub open spec fn spec_identifier(self) -> Seq<char> {
        match self {
            Canteen::Forum => "forum"@,
            Canteen::Academica => "academica"@,
            Canteen::Picknick => "picknick"@,
            Canteen::BonaVista => "bona-vista"@,
            Canteen::GrillCafe => "grillcafe"@,
            Canteen::ZM2 => "zm2"@,
            Canteen::Basilica => "basilica"@,
            Canteen::Atrium => "atrium"@,
        }
    }

    /// Position of the hall when all halls are sorted by identifier.
    pub open spec fn spec_rank(self) -> int {
        match self {
            Canteen::Academica => 0,
            Canteen::Atrium => 1,
            Canteen::Basilica => 2,
            Canteen::BonaVista => 3,
            Canteen::Forum => 4,
            Canteen::GrillCafe => 5,
            Canteen::Picknick => 6,
            Canteen::ZM2 => 7,
        }
    }

    /// The hall at a given position of the identifier order.
    pub open spec fn spec_from_rank(rank: int) -> Canteen {
        if rank == 0 {
            Canteen::Academica
        } else if rank == 1 {
            Canteen::Atrium
        } else if rank == 2 {
            Canteen::Basilica
        } else if rank == 3 {
            Canteen::BonaVista
        } else if rank == 4 {
            Canteen::Forum
        } else if rank == 5 {
            Canteen::GrillCafe
        } else if rank == 6 {
            Canteen::Picknick
        } else {
            Canteen::ZM2
        }
    }

    /// All halls, in the order of their declaration.
    pub open spec fn spec_all() -> Seq<Canteen> {
        seq![
            Canteen::Forum,
            Canteen::Academica,
            Canteen::Picknick,
            Canteen::BonaVista,
            Canteen::GrillCafe,
            Canteen::ZM2,
            Canteen::Basilica,
            Canteen::Atrium,
        ]
    }

    /// What parsing an identifier yields: the hall it names, if any.
    pub open spec fn spec_parse(s: Seq<char>) -> Option<Canteen> {
        if s == "forum"@ {
            Some(Canteen::Forum)
        } else if s == "academica"@ {
            Some(Canteen::Academica)
        } else if s == "picknick"@ {
            Some(Canteen::Picknick)
        } else if s == "bona-vista"@ {
            Some(Canteen::BonaVista)
        } else if s == "grillcafe"@ {
            Some(Canteen::GrillCafe)
        } else if s == "zm2"@ {
            Some(Canteen::ZM2)
        } else if s == "basilica"@ {
            Some(Canteen::Basilica)
        } else if s == "atrium"@ {
            Some(Canteen::Atrium)
        } else {
            None
        }
    }

    /// The message that reports an unknown identifier.
    pub open spec fn spec_invalid_message(s: Seq<char>) -> Seq<char> {
        "Invalid canteen identifier: "@ + s
    }

    /// Returns the lowercase key under which the hall is stored and sent.
    pub fn get_identifier(&self) -> (s: &'static str)
        ensures
            s@ == self.spec_identifier(),
    {
        match self {
            Canteen::Forum => "forum",
            Canteen::Academica => "academica",
            Canteen::Picknick => "picknick",
            Canteen::BonaVista => "bona-vista",
            Canteen::GrillCafe => "grillcafe",
            Canteen::ZM2 => "zm2",
            Canteen::Basilica => "basilica",
            Canteen::Atrium => "atrium",
        }
    }

    /// Reads a hall from its identifier; any other text is reported back in
    /// the error message.
    pub fn from_str(s: &str) -> (r: Result<Canteen, String>)
        ensures
            match Canteen::spec_parse(s@) {
                Some(c) => r == Ok::<Canteen, String>(c),
                None => r is Err && r->Err_0@ == Canteen::spec_invalid_message(s@),
            },
    {
        if text_eq(s, "forum") {
            Ok(Canteen::Forum)
        } else if text_eq(s, "academica") {
            Ok(Canteen::Academica)
        } else if text_eq(s, "picknick") {
            Ok(Canteen::Picknick)
        } else if text_eq(s, "bona-vista") {
            Ok(Canteen::BonaVista)
        } else if text_eq(s, "grillcafe") {
            Ok(Canteen::GrillCafe)
        } else if text_eq(s, "zm2") {
            Ok(Canteen::ZM2)
        } else if text_eq(s, "basilica") {
            Ok(Canteen::Basilica)
        } else if text_eq(s, "atrium") {
            Ok(Canteen::Atrium)
        } else {
            Err(String::from_str("Invalid canteen identifier: ").concat(s))
        }
    }

    /// Returns the position of the hall when all halls are sorted by
    /// identifier.
    pub fn rank(&self) -> (r: u8)
        ensures
            r == self.spec_rank(),
            r < CANTEEN_COUNT,
    {
        match self {
            Canteen::Academica => 0,
            Canteen::Atrium => 1,
            Canteen::Basilica => 2,
            Canteen::BonaVista => 3,
            Canteen::Forum => 4,
            Canteen::GrillCafe => 5,
            Canteen::Picknick => 6,
            Canteen::ZM2 => 7,
        }
    }

    /// Returns the hall at position `rank` of the identifier order.
    pub fn from_rank(rank: u8) -> (c: Canteen)
        requires
            rank < CANTEEN_COUNT,
        ensures
            c == Canteen::spec_from_rank(rank as int),
            c.spec_rank() == rank,
    {
        if rank == 0 {
            Canteen::Academica
        } else if rank == 1 {
            Canteen::Atrium
        } else if rank == 2 {
            Canteen::Basilica
        } else if rank == 3 {
            Canteen::BonaVista
        } else if rank == 4 {
            Canteen::Forum
        } else if rank == 5 {
            Canteen::GrillCafe
        } else if rank == 6 {
            Canteen::Picknick
        } else {
            Canteen::ZM2
        }
    }

    /// Returns every hall once, in the order of their declaration.
    pub fn all() -> (v: Vec<Canteen>)
        ensures
            v@ == Canteen::spec_all(),
    {
        let mut v: Vec<Canteen> = Vec::new();
        v.push(Canteen::Forum);
        v.push(Canteen::Academica);
        v.push(Canteen::Picknick);
        v.push(Canteen::BonaVista);
        v.push(Canteen::GrillCafe);
        v.push(Canteen::ZM2);
        v.push(Canteen::Basilica);
        v.push(Canteen::Atrium);
        v
    }
}

impl std::str::FromStr for Canteen {
    type Err = String;

    /// Reads a hall from its identifier, as the function of the same name
    /// on the type does.
    fn from_str(s: &str) -> (r: Result<Self, Self::Err>)
        ensures
            match Canteen::spec_parse(s@) {
                Some(c) => r == Ok::<Canteen, String>(c),
                None => r is Err && r->Err_0@ == Canteen::spec_invalid_message(s@),
            },
    {
        Canteen::from_str(s)
    }
}

/// Makes the characters of all eight identifiers known.
pub proof fn reveal_identifiers()
    ensures
        "forum"@ == seq!['f', 'o', 'r', 'u', 'm'],
        "academica"@ == seq!['a', 'c', 'a', 'd', 'e', 'm', 'i', 'c', 'a'],
        "picknick"@ == seq!['p', 'i', 'c', 'k', 'n', 'i', 'c', 'k'],
        "bona-vista"@ == seq!['b', 'o', 'n', 'a', '-', 'v', 'i', 's', 't', 'a'],
        "grillcafe"@ == seq!['g', 'r', 'i', 'l', 'l', 'c', 'a', 'f', 'e'],
        "zm2"@ == seq!['z', 'm', '2'],
        "basilica"@ == seq!['b', 'a', 's', 'i', 'l', 'i', 'c', 'a'],
        "atrium"@ == seq!['a', 't', 'r', 'i', 'u', 'm'],
{
    reveal_strlit("forum");
    reveal_strlit("academica");
    reveal_strlit("picknick");
    reveal_strlit("bona-vista");
    reveal_strlit("grillcafe");
    reveal_strlit("zm2");
    reveal_strlit("basilica");
    reveal_strlit("atrium");
}

/// An identifier is read back as the hall it came from.
pub proof fn lemma_identifier_round_trip(c: Canteen)
    ensures
        Canteen::spec_parse(c.spec_identifier()) == Some(c),
{
    reveal_identifiers();
}

/// Two different halls have different identifiers.
pub proof fn lemma_identifier_injective(a: Canteen, b: Canteen)
    requires
        a.spec_identifier() == b.spec_identifier(),
    ensures
        a == b,
{
    lemma_identifier_round_trip(a);
    lemma_identifier_round_trip(b);
}

/// A text is read as a hall exactly when it is that hall's identifier.
pub proof fn lemma_parse_is_identifier(s: Seq<char>, c: Canteen)
    ensures
        Canteen::spec_parse(s) == Some(c) <==> s == c.spec_identifier(),
{
    lemma_identifier_round_trip(c);
}

/// Halls rank in the lexicographic order of their identifiers.
pub proof fn lemma_rank_follows_identifier(a: Canteen, b: Canteen)
    ensures
        a.spec_rank() < b.spec_rank() <==> lex_lt(a.spec_identifier(), b.spec_identifier()),
{
    reveal_identifiers();
    reveal_with_fuel(lex_le, 3);
}

/// The rank of a hall is its place among the eight, and finds it again.
pub proof fn lemma_rank_round_trip(c: Canteen)
    ensures
        0 <= c.spec_rank() < 8,
        Canteen::spec_from_rank(c.spec_rank()) == c,
{
}

/// Where a hall publishes its menu.
pub trait CanteenExt {
    /// The address of the hall's menu page.
    spec fn spec_url(&self) -> Seq<char>;

    /// Returns the address of the hall's menu page.
    fn get_url(&self) -> (url: &str)
        ensures
            url@ == self.spec_url(),
    ;
}

impl CanteenExt for Canteen {
    open spec fn spec_url(&self) -> Seq<char> {
        match self {
            Canteen::Forum => "https://www.studierendenwerk-pb.de/gastronomie/speiseplaene/forum/"@,
            Canteen::Academica =>
                "https://www.studierendenwerk-pb.de/gastronomie/speiseplaene/mensa-academica/"@,
            Canteen::Picknick =>
                "https://www.studierendenwerk-pb.de/gastronomie/speiseplaene/picknick/"@,
            Canteen::BonaVista =>
                "https://www.studierendenwerk-pb.de/gastronomie/speiseplaene/bona-vista/"@,
            Canteen::GrillCafe =>
                "https://www.studierendenwerk-pb.de/gastronomie/speiseplaene/grillcafe/"@,
            Canteen::ZM2 =>
                "https://www.studierendenwerk-pb.de/gastronomie/speiseplaene/mensa-zm2/"@,
            Canteen::Basilica =>
                "https://www.studierendenwerk-pb.de/gastronomie/speiseplaene/mensa-basilica-hamm/"@,
            Canteen::Atrium =>
                "https://www.studierendenwerk-pb.de/gastronomie/speiseplaene/mensa-atrium-lippstadt/"@,
        }
    }

    fn get_url(&self) -> (url: &str) {
        match self {
            Canteen::Forum => "https://www.studierendenwerk-pb.de/gastronomie/speiseplaene/forum/",
            Canteen::Academica =>
                "https://www.studierendenwerk-pb.de/gastronomie/speiseplaene/mensa-academica/",
            Canteen::Picknick =>
                "https://www.studierendenwerk-pb.de/gastronomie/speiseplaene/picknick/",
            Canteen::BonaVista =>
                "https://www.studierendenwerk-pb.de/gastronomie/speiseplaene/bona-vista/",
            Canteen::GrillCafe =>
                "https://www.studierendenwerk-pb.de/gastronomie/speiseplaene/grillcafe/",
            Canteen::ZM2 =>
                "https://www.studierendenwerk-pb.de/gastronomie/speiseplaene/mensa-zm2/",
            Canteen::Basilica =>
                "https://www.studierendenwerk-pb.de/gastronomie/speiseplaene/mensa-basilica-hamm/",
            Canteen::Atrium =>
                "https://www.studierendenwerk-pb.de/gastronomie/speiseplaene/mensa-atrium-lippstadt/",
        }
    }
}

/// The pieces of a text between its commas, in order. A text without a
/// comma is its own single piece, and so is the empty text.
pub open spec fn comma_pieces(s: Seq<char>) -> Seq<Seq<char>>
    decreases s.len(),
{
    if s.len() == 0 {
        seq![Seq::<char>::empty()]
    } else {
        let before = comma_pieces(s.drop_last());
        if s.last() == ',' {
            before.push(Seq::<char>::empty())
        } else {
            before.update(before.len() - 1, before.last().push(s.last()))
        }
    }
}

/// Whether `r` is what reading the identifier `piece` yields.
pub open spec fn is_parse_of(r: Result<Canteen, String>, piece: Seq<char>) -> bool {
    match Canteen::spec_parse(piece) {
        Some(c) => r == Ok::<Canteen, String>(c),
        None => r is Err && r->Err_0@ == Canteen::spec_invalid_message(piece),
    }
}

/// How many commas a text holds.
pub open spec fn comma_count(s: Seq<char>) -> nat
    decreases s.len(),
{
    if s.len() == 0 {
        0
    } else {
        comma_count(s.drop_last()) + if s.last() == ',' {
            1nat
        } else {
            0nat
        }
    }
}

/// A text has one piece more than it has commas, and no piece holds a
/// comma.
pub proof fn lemma_comma_pieces(s: Seq<char>)
    ensures
        comma_pieces(s).len() == comma_count(s) + 1,
        forall|k: int, i: int|
            0 <= k < comma_pieces(s).len() && 0 <= i < comma_pieces(s)[k].len() ==> (
            #[trigger] comma_pieces(s)[k][i]) != ',',
    decreases s.len(),
{
    if s.len() > 0 {
        lemma_comma_pieces(s.drop_last());
    }
}

/// Reads a comma-separated list of identifiers, one result per piece, in
/// the order of the pieces.
pub fn parse_canteens_comma_separated(s: &str) -> (v: Vec<Result<Canteen, String>>)
    ensures
        v@.len() == comma_pieces(s@).len(),
        forall|k: int| 0 <= k < v@.len() ==> is_parse_of(#[trigger] v@[k], comma_pieces(s@)[k]),
{
    let n = s.unicode_len();
    let mut v: Vec<Result<Canteen, String>> = Vec::new();
    let mut start: usize = 0;
    let mut i: usize = 0;
    while i < n
        invariant
            n == s@.len(),
            start <= i <= n,
            comma_pieces(s@.take(i as int)).len() == v@.len() + 1,
            comma_pieces(s@.take(i as int)).last() == s@.subrange(start as int, i as int),
            forall|k: int|
                0 <= k < v@.len() ==> is_parse_of(
                    #[trigger] v@[k],
                    comma_pieces(s@.take(i as int))[k],
                ),
        decreases n - i,
    {
        let c = s.get_char(i);
        proof {
            let next = s@.take(i + 1);
            assert(next.drop_last() =~= s@.take(i as int));
        }
        if c == ',' {
            let piece = s.substring_char(start, i);
            v.push(Canteen::from_str(piece));
            start = i + 1;
        }
        i += 1;
    }
    assert(s@.take(n as int) =~= s@);
    let piece = s.substring_char(start, n);
    v.push(Canteen::from_str(piece));
    v
}

} // verus!
