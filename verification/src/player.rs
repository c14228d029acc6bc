//! Process-resident player state: three stored attributes each read
//! through three alias accessors, the acquired-tag set, the record of
//! already-read dialogue scripts, and the world position.
use vstd::prelude::*;
use crate::geom::{V3, Transform};
use crate::collision::ColliderType;
use crate::parse::str_eq;

verus! {

/// Mutable player state. Tags are insertion-ordered and may repeat; only
/// membership is ever tested.
pub struct PlayerData {
    pub recovery: u8,
    pub fitness: u8,
    pub charisma: u8,
    pub acquired_tags: Vec<String>,
    pub read_scripts: Vec<String>,
    pub pos: V3,
}

/// The mathematical image of [`PlayerData`].
pub struct PlayerView {
    pub recovery: u8,
    pub fitness: u8,
    pub charisma: u8,
    pub acquired_tags: Seq<Seq<char>>,
    pub read_scripts: Seq<Seq<char>>,
    pub pos: V3,
}

impl View for PlayerData {
    type V = PlayerView;

    open spec fn view(&self) -> PlayerView {
        PlayerView {
            recovery: self.recovery,
            fitness: self.fitness,
            charisma: self.charisma,
            acquired_tags: self.acquired_tags.deep_view(),
            read_scripts: self.read_scripts.deep_view(),
            pos: self.pos,
        }
    }
}

/// Membership of a piece of text in a list of texts.
pub open spec fn spec_has_text(list: Seq<Seq<char>>, t: Seq<char>) -> bool {
    exists|k: int| 0 <= k < list.len() && list[k] == t
}

/// Membership test shared by the tag set and the read-script record.
pub fn text_list_contains(list: &Vec<String>, t: &str) -> (r: bool)
    ensures
        r == spec_has_text(list.deep_view(), t@),
{
    let n = list.len();
    let mut i: usize = 0;
    while i < n
        invariant
            0 <= i <= n,
            n == list.len(),
            forall|k: int| 0 <= k < i ==> list.deep_view()[k] != t@,
        decreases n - i,
    {
        if str_eq(list[i].as_str(), t) {
            proof {
                assert(list.deep_view()[i as int] == t@);
            }
            return true;
        }
        i = i + 1;
    }
    false
}

impl PlayerData {
    /// Fresh state with the given attributes, no tags, nothing read, at
    /// the origin.
    pub fn new(recovery: u8, fitness: u8, charisma: u8) -> (r: PlayerData)
        ensures
            r@.recovery == recovery,
            r@.fitness == fitness,
            r@.charisma == charisma,
            r@.acquired_tags == Seq::<Seq<char>>::empty(),
            r@.read_scripts == Seq::<Seq<char>>::empty(),
            r@.pos == (V3 {
                x: crate::fixed::Fx { raw: 0 },
                y: crate::fixed::Fx { raw: 0 },
                z: crate::fixed::Fx { raw: 0 },
            }),
    {
        let r = PlayerData {
            recovery,
            fitness,
            charisma,
            acquired_tags: Vec::new(),
            read_scripts: Vec::new(),
            pos: V3::zero(),
        };
        proof {
            assert(r.acquired_tags.deep_view() =~= Seq::<Seq<char>>::empty());
            assert(r.read_scripts.deep_view() =~= Seq::<Seq<char>>::empty());
        }
        r
    }

    /// The player's own collision body: a unit cylinder at the player's
    /// position.
    pub fn collider(&self) -> (r: (ColliderType, Transform))
        ensures
            r.0 == ColliderType::Cylinder,
            r.1 == Transform::spec_from_pos(self.pos),
    {
        (ColliderType::Cylinder, Transform::from_pos(self.pos))
    }

    pub fn recovery(&self) -> (r: u8)
        ensures
            r == self.recovery,
    {
        self.recovery
    }

    pub fn focus(&self) -> (r: u8)
        ensures
            r == self.recovery,
    {
        self.recovery
    }

    pub fn reasoning(&self) -> (r: u8)
        ensures
            r == self.recovery,
    {
        self.recovery
    }

    pub fn fitness(&self) -> (r: u8)
        ensures
            r == self.fitness,
    {
        self.fitness
    }

    pub fn speed(&self) -> (r: u8)
        ensures
            r == self.fitness,
    {
        self.fitness
    }

    pub fn strength(&self) -> (r: u8)
        ensures
            r == self.fitness,
    {
        self.fitness
    }

    pub fn charisma(&self) -> (r: u8)
        ensures
            r == self.charisma,
    {
        self.charisma
    }

    pub fn expression(&self) -> (r: u8)
        ensures
            r == self.charisma,
    {
        self.charisma
    }

    pub fn deception(&self) -> (r: u8)
        ensures
            r == self.charisma,
    {
        self.charisma
    }

    /// Whether a tag has been acquired.
    pub fn has_tag(&self, t: &str) -> (r: bool)
        ensures
            r == spec_has_text(self@.acquired_tags, t@),
    {
        text_list_contains(&self.acquired_tags, t)
    }

    /// Whether a dialogue script has already been read.
    pub fn has_read(&self, t: &str) -> (r: bool)
        ensures
            r == spec_has_text(self@.read_scripts, t@),
    {
        text_list_contains(&self.read_scripts, t)
    }

    /// Record a tag as acquired (duplicates are kept).
    pub fn add_tag(&mut self, t: String)
        ensures
            final(self)@.acquired_tags == old(self)@.acquired_tags.push(t@),
            final(self)@.read_scripts == old(self)@.read_scripts,
            final(self).recovery == old(self).recovery,
            final(self).fitness == old(self).fitness,
            final(self).charisma == old(self).charisma,
            final(self).pos == old(self).pos,
    {
        let ghost prev = self.acquired_tags.deep_view();
        let ghost t_view = t@;
        self.acquired_tags.push(t);
        proof {
            assert(self.acquired_tags.deep_view() =~= prev.push(t_view));
        }
    }
}

} // verus!
