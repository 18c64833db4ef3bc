//! Spaces and moving windows between them.
use vstd::prelude::*;

use crate::ordered::Key;
use crate::sequences::{each, lemma_each_step, lemma_take_all};

verus! {

/// A space, by the nonzero number that the window server gave it.
#[derive(Clone, Copy, Debug, PartialEq, Eq, Structural)]
pub struct SpaceId {
    raw: u64,
}

impl View for SpaceId {
    type V = u64;

    closed spec fn view(&self) -> u64 {
        self.raw
    }
}

impl SpaceId {
    #[verifier::type_invariant]
    spec fn is_nonzero(self) -> bool {
        self.raw != 0
    }

    pub fn new(id: u64) -> (space: SpaceId)
        requires
            id != 0,
        ensures
            space@ == id,
    {
        SpaceId { raw: id }
    }

    pub fn from_raw(id: u64) -> (space: Option<SpaceId>)
        ensures
            space is Some <==> id != 0,
            space matches Some(s) ==> s@ == id,
    {
        if id == 0 {
            None
        } else {
            Some(SpaceId { raw: id })
        }
    }

    pub fn get(self) -> (id: u64)
        ensures
            id == self@,
            id != 0,
    {
        proof {
            use_type_invariant(self);
        }
        self.raw
    }
}

impl Key for SpaceId {
    closed spec fn rank(self) -> int {
        self.raw as int
    }

    proof fn rank_is_injective(a: Self, b: Self) {
    }

    fn rank_of(self) -> (r: u64) {
        self.raw
    }
}

/// A space is its number: two spaces with the same number are the same.
pub proof fn space_is_its_number(a: SpaceId, b: SpaceId)
    requires
        a@ == b@,
    ensures
        a == b,
{
}

/// The space that a screen shows.
#[derive(Clone, Copy, Debug, PartialEq, Eq, Structural)]
pub struct ScreenSpace {
    pub id: SpaceId,
    pub fullscreen: bool,
}

/// Why a window could not be moved to a space.
#[derive(Clone, Copy, Debug, PartialEq, Eq, Structural)]
pub enum SpaceMoveError {
    Unsupported,
    NotOwned,
}

impl SpaceMoveError {
    /// The error in words.
    pub fn message(&self) -> (text: &'static str)
        ensures
            text@ == (match self {
                SpaceMoveError::Unsupported =>
                    "SkyLight does not provide SLSBridgedMoveWindowsToManagedSpaceOperation"@,
                SpaceMoveError::NotOwned =>
                    "the window server does not list the window as owned by the app"@,
            }),
    {
        match self {
            SpaceMoveError::Unsupported => "SkyLight does not provide SLSBridgedMoveWindowsToManagedSpaceOperation",
            SpaceMoveError::NotOwned => "the window server does not list the window as owned by the app",
        }
    }
}

/// Converts a raw space id, as used by SkyLight, to a `SpaceId`.
pub fn space_id_from_raw(id: u64) -> (space: Option<SpaceId>)
    ensures
        space is Some <==> id != 0,
        space matches Some(s) ==> s@ == id,
{
    SpaceId::from_raw(id)
}

/// The number of a space in a list of the window server, if it is one.
pub open spec fn listed(raw: Option<i64>) -> Seq<u64> {
    match raw {
        Some(n) => if n as u64 == 0 {
            Seq::empty()
        } else {
            seq![n as u64]
        },
        None => Seq::empty(),
    }
}

/// The spaces in a list of numbers. What is not a number of a space is left
/// out.
pub fn spaces_from_raw(raw: &Vec<Option<i64>>) -> (spaces: Vec<SpaceId>)
    ensures
        spaces@.map_values(|s: SpaceId| s@) == each(raw@, |n: Option<i64>| listed(n)),
{
    let ghost f = |n: Option<i64>| listed(n);
    let ghost number = |s: SpaceId| s@;
    let mut spaces: Vec<SpaceId> = Vec::new();
    let mut i: usize = 0;
    proof {
        assert(spaces@.map_values(number) =~= Seq::empty());
    }
    while i < raw.len()
        invariant
            i <= raw.len(),
            f == (|n: Option<i64>| listed(n)),
            number == (|s: SpaceId| s@),
            spaces@.map_values(number) == each(raw@.take(i as int), f),
        decreases raw.len() - i,
    {
        proof {
            lemma_each_step(raw@, f, i as int);
        }
        let ghost before = spaces@;
        match raw[i] {
            Some(n) => {
                match space_id_from_raw(n as u64) {
                    Some(space) => {
                        spaces.push(space);
                    },
                    None => {},
                }
            },
            None => {},
        }
        proof {
            assert(spaces@.map_values(number) =~= before.map_values(number) + f(raw@[i as int]));
        }
        i += 1;
    }
    proof {
        lemma_take_all(raw@);
    }
    spaces
}

/// A number of a list is that of a space unless it is zero.
pub proof fn numbers_but_zero_are_spaces(n: i64)
    ensures
        n > 0 ==> listed(Some(n)) == seq![n as u64],
        n == 0 ==> listed(Some(n)).len() == 0,
        listed(None).len() == 0,
{
}

/// The spaces of two lists, put together, are those of the one and then those of
/// the other.
pub proof fn lists_of_spaces_add_up(a: Seq<Option<i64>>, b: Seq<Option<i64>>)
    ensures
        each(a + b, |n: Option<i64>| listed(n)) == each(a, |n: Option<i64>| listed(n)) + each(
            b,
            |n: Option<i64>| listed(n),
        ),
    decreases b.len(),
{
    let f = |n: Option<i64>| listed(n);
    if b.len() == 0 {
        assert(a + b =~= a);
        assert(each(a, f) + each(b, f) =~= each(a, f));
    } else {
        lists_of_spaces_add_up(a, b.drop_last());
        assert((a + b).drop_last() =~= a + b.drop_last());
        assert(each(a + b, f) =~= each(a, f) + each(b, f));
    }
}

} // verus!
