//! The tile that the next move brings.

use crate::board::faces_of;
use crate::probability::{always, one_in, Probability};
use crate::text::{decimal, join, joined, texts, to_decimal};
use vstd::prelude::*;

verus! {

/// The tile that is shown as the next one: a known one, or one of up to three.
#[derive(Debug)]
pub enum NextTile {
    Basic { rank: u16, face: u64 },
    Bonus { ranks: Vec<u16>, faces: Vec<u64> },
}

/// What a next tile shows.
pub enum Preview {
    Basic { rank: u16, face: u64 },
    Bonus { ranks: Seq<u16>, faces: Seq<u64> },
}

/// Where the spawned tile came from.
#[derive(Clone, Copy, Debug, PartialEq, Eq, Structural)]
pub enum SpawnSource {
    Basic,
    Bonus,
}

impl View for NextTile {
    type V = Preview;

    open spec fn view(&self) -> Preview {
        match self {
            NextTile::Basic { rank, face } => Preview::Basic { rank: *rank, face: *face },
            NextTile::Bonus { ranks, faces } => Preview::Bonus { ranks: ranks@, faces: faces@ },
        }
    }
}

impl Clone for NextTile {
    fn clone(&self) -> (copy: Self)
        ensures
            copy@ == self@,
    {
        match self {
            NextTile::Basic { rank, face } => NextTile::Basic { rank: *rank, face: *face },
            NextTile::Bonus { ranks, faces } => {
                let copy = NextTile::Bonus { ranks: ranks.clone(), faces: faces.clone() };
                assert(copy@->ranks =~= ranks@);
                assert(copy@->faces =~= faces@);
                copy
            },
        }
    }
}

impl Preview {
    /// The ranks that the tile can turn out to have.
    pub open spec fn ranks(self) -> Seq<u16> {
        match self {
            Preview::Basic { rank, .. } => seq![rank],
            Preview::Bonus { ranks, .. } => ranks,
        }
    }

    /// The kind of tile.
    pub open spec fn source(self) -> SpawnSource {
        match self {
            Preview::Basic { .. } => SpawnSource::Basic,
            Preview::Bonus { .. } => SpawnSource::Bonus,
        }
    }

    /// Whether the tile shows the faces of its ranks, and has at least one rank.
    pub open spec fn is_coherent(self) -> bool {
        match self {
            Preview::Basic { rank, face } => seq![face] == faces_of(seq![rank]),
            Preview::Bonus { ranks, faces } => ranks.len() > 0 && faces == faces_of(ranks),
        }
    }

    /// The text that shows the tile.
    pub open spec fn label(self) -> Seq<char> {
        match self {
            Preview::Basic { face, .. } => decimal(face as nat),
            Preview::Bonus { faces, .. } => "+ "@ + joined(decimals(faces), "/"@),
        }
    }

    /// The rank of the tile where only one is possible.
    pub open spec fn only_rank(self) -> Option<u16> {
        if self.ranks().len() == 1 {
            Some(self.ranks()[0])
        } else {
            None
        }
    }

    /// The ranks that the tile can turn out to have, each with its probability.
    pub open spec fn options(self) -> Seq<(u16, Probability)> {
        Seq::new(
            self.ranks().len(),
            |i: int|
                (
                    self.ranks()[i],
                    match self {
                        Preview::Basic { .. } => always(),
                        Preview::Bonus { ranks, .. } => one_in(ranks.len() as u64),
                    },
                ),
        )
    }
}

/// Numbers in decimal.
pub open spec fn decimals(numbers: Seq<u64>) -> Seq<Seq<char>> {
    Seq::new(numbers.len(), |i: int| decimal(numbers[i] as nat))
}

impl NextTile {
    /// The text that shows the tile: its face, or a plus sign and the possible faces.
    pub fn display_label(&self) -> (label: String)
        ensures
            label@ == self@.label(),
    {
        match self {
            NextTile::Basic { face, .. } => to_decimal(*face),
            NextTile::Bonus { faces, .. } => {
                let mut labels: Vec<String> = Vec::new();
                let mut i: usize = 0;
                while i < faces.len()
                    invariant
                        i <= faces@.len(),
                        labels@.len() == i,
                        forall|j: int|
                            0 <= j < i ==> (#[trigger] labels@[j])@ == decimal(faces@[j] as nat),
                    decreases faces@.len() - i,
                {
                    labels.push(to_decimal(faces[i]));
                    i = i + 1;
                }
                assert(texts(labels@) =~= decimals(faces@));
                let mut label = String::new();
                label.append("+ ");
                label.append(join(&labels, "/").as_str());
                assert(label@ =~= self@.label());
                label
            },
        }
    }

    /// The ranks that the tile can turn out to have.
    pub fn rank_signature(&self) -> (ranks: Vec<u16>)
        ensures
            ranks@ == self@.ranks(),
    {
        match self {
            NextTile::Basic { rank, .. } => {
                let ranks: Vec<u16> = vec![*rank];
                assert(ranks@ =~= seq![*rank]);
                ranks
            },
            NextTile::Bonus { ranks, .. } => {
                let copy = ranks.clone();
                assert(copy@ =~= ranks@);
                copy
            },
        }
    }

    /// The rank of the tile where only one is possible.
    pub fn single_rank(&self) -> (only: Option<u16>)
        ensures
            only == self@.only_rank(),
    {
        match self {
            NextTile::Basic { rank, .. } => Some(*rank),
            NextTile::Bonus { ranks, .. } => {
                if ranks.len() == 1 {
                    Some(ranks[0])
                } else {
                    None
                }
            },
        }
    }

    /// The ranks that the tile can turn out to have, each with its probability.
    pub fn rank_options(&self) -> (options: Vec<(u16, Probability)>)
        ensures
            options@ == self@.options(),
    {
        match self {
            NextTile::Basic { rank, .. } => {
                let options: Vec<(u16, Probability)> = vec![(*rank, Probability::one())];
                assert(options@ =~= self@.options());
                options
            },
            NextTile::Bonus { ranks, .. } => {
                let probability = Probability::one_out_of(ranks.len() as u64);
                let mut options: Vec<(u16, Probability)> = Vec::new();
                let mut i: usize = 0;
                while i < ranks.len()
                    invariant
                        i <= ranks@.len(),
                        options@.len() == i,
                        forall|j: int| 0 <= j < i ==> options@[j] == (ranks@[j], probability),
                    decreases ranks@.len() - i,
                {
                    options.push((ranks[i], probability));
                    i = i + 1;
                }
                assert(options@ =~= self@.options());
                options
            },
        }
    }

    /// Whether the tile is a known one or a bonus.
    pub fn source(&self) -> (source: SpawnSource)
        ensures
            source == self@.source(),
    {
        match self {
            NextTile::Basic { .. } => SpawnSource::Basic,
            NextTile::Bonus { .. } => SpawnSource::Bonus,
        }
    }
}

/// A basic tile has one rank and is certain to have it; each of the ranks of a bonus tile is as
/// likely as the others.
pub proof fn a_tile_has_each_of_its_ranks_alike(tile: Preview, i: int)
    requires
        0 <= i < tile.ranks().len() <= u64::MAX,
    ensures
        tile.options().len() == tile.ranks().len(),
        tile.options()[i].0 == tile.ranks()[i],
        tile.options()[i].1.numerator == 1,
        tile.options()[i].1.denominator == tile.ranks().len(),
        tile is Basic ==> tile.ranks().len() == 1 && tile.ranks()[0] == tile->rank,
        tile is Bonus ==> tile.ranks() == tile->Bonus_ranks,
        tile.ranks().len() == 1 <==> tile.only_rank() is Some,
        tile.only_rank() is Some ==> tile.only_rank()->Some_0 == tile.ranks()[0],
        tile is Basic <==> tile.source() == SpawnSource::Basic,
        tile is Bonus <==> tile.source() == SpawnSource::Bonus,
{
}

} // verus!
