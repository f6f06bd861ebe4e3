//! The falling piece: an ordered short sequence of blocks supporting
//! cyclic rotation of its internal order.

use vstd::prelude::*;

use crate::board::{Block, Palette};

verus! {

/// The player-controlled falling piece, a short vertical sequence of
/// colored blocks. It does not know its own position.
#[derive(Clone, Debug)]
pub struct Pillar {
    blocks: Vec<Block>,
}

/// One upward cyclic shift: the first block moves to the end.
pub open spec fn rot_up_spec(s: Seq<Block>) -> Seq<Block> {
    if s.len() == 0 {
        s
    } else {
        s.subrange(1, s.len() as int) + seq![s[0]]
    }
}

/// One downward cyclic shift: the last block moves to the front.
pub open spec fn rot_down_spec(s: Seq<Block>) -> Seq<Block> {
    if s.len() == 0 {
        s
    } else {
        seq![s.last()] + s.drop_last()
    }
}

/// `n` upward cyclic shifts in a row.
pub open spec fn rot_up_n(s: Seq<Block>, n: nat) -> Seq<Block>
    decreases n,
{
    if n == 0 {
        s
    } else {
        rot_up_spec(rot_up_n(s, (n - 1) as nat))
    }
}

impl View for Pillar {
    type V = Seq<Block>;

    closed spec fn view(&self) -> Seq<Block> {
        self.blocks@
    }
}

impl Pillar {
    /// Draws `len` independent uniform samples from the palette.
    pub fn new_random(rng: &mut rand::rngs::StdRng, palette: &Palette, len: usize) -> (r: Pillar)
        requires
            0 < palette@.len(),
        ensures
            r@.len() == len,
            forall|i: int| 0 <= i < len ==> palette@.contains(#[trigger] r@[i]),
    {
        let mut blocks: Vec<Block> = Vec::new();
        for k in 0..len
            invariant
                0 < palette@.len(),
                blocks@.len() == k,
                forall|i: int| 0 <= i < k ==> palette@.contains(#[trigger] blocks@[i]),
        {
            blocks.push(palette.get_random(rng));
        }
        Pillar { blocks }
    }

    /// An exact copy of this pillar.
    pub fn duplicate(&self) -> (r: Pillar)
        ensures
            r@ == self@,
    {
        let mut blocks: Vec<Block> = Vec::new();
        let n = self.blocks.len();
        for k in 0..n
            invariant
                n == self@.len(),
                blocks@ == self@.subrange(0, k as int),
        {
            blocks.push(self.blocks[k]);
            proof {
                assert(blocks@ =~= self@.subrange(0, k + 1));
            }
        }
        proof {
            assert(self@.subrange(0, n as int) =~= self@);
        }
        Pillar { blocks }
    }

    pub fn new(blocks: Vec<Block>) -> (r: Pillar)
        ensures
            r@ == blocks@,
    {
        Pillar { blocks }
    }

    pub fn len(&self) -> (r: usize)
        ensures
            r == self@.len(),
    {
        self.blocks.len()
    }

    /// The block at position `idx`, counted from the top of the pillar.
    pub fn get(&self, idx: usize) -> (r: Block)
        requires
            idx < self@.len(),
        ensures
            r == self@[idx as int],
    {
        self.blocks[idx]
    }

    /// The blocks in top-to-bottom order.
    pub fn iter(&self) -> (r: &Vec<Block>)
        ensures
            r@ == self@,
    {
        &self.blocks
    }

    pub fn rot_up(&mut self)
        ensures
            final(self)@ == rot_up_spec(old(self)@),
    {
        if self.blocks.len() > 0 {
            let b = self.blocks.remove(0);
            self.blocks.push(b);
            assert(self.blocks@ =~= rot_up_spec(old(self)@.subrange(0, old(self)@.len() as int)));
            assert(old(self)@.subrange(0, old(self)@.len() as int) =~= old(self)@);
        }
    }

    pub fn rot_down(&mut self)
        ensures
            final(self)@ == rot_down_spec(old(self)@),
    {
        if self.blocks.len() > 0 {
            let b = self.blocks.pop().unwrap();
            self.blocks.insert(0, b);
            assert(self.blocks@ =~= rot_down_spec(old(self)@));
        }
    }
}

/// Rotating up and then down (or down and then up) restores a pillar's
/// original block order.
pub proof fn lemma_rotation_round_trip(s: Seq<Block>)
    ensures
        rot_down_spec(rot_up_spec(s)) == s,
        rot_up_spec(rot_down_spec(s)) == s,
{
    if s.len() > 0 {
        assert(rot_down_spec(rot_up_spec(s)) =~= s);
        assert(rot_up_spec(rot_down_spec(s)) =~= s);
    }
}

proof fn lemma_rot_up_n_shifts(s: Seq<Block>, n: nat)
    requires
        n <= s.len(),
    ensures
        rot_up_n(s, n) == s.subrange(n as int, s.len() as int) + s.subrange(0, n as int),
    decreases n,
{
    if n == 0 {
        assert(rot_up_n(s, 0) =~= s.subrange(0, s.len() as int) + s.subrange(0, 0));
    } else {
        lemma_rot_up_n_shifts(s, (n - 1) as nat);
        assert(rot_up_spec(rot_up_n(s, (n - 1) as nat)) =~= s.subrange(n as int, s.len() as int)
            + s.subrange(0, n as int));
    }
}

/// As many upward rotations as the pillar has blocks restore its
/// original block order.
pub proof fn lemma_rotation_cycle(s: Seq<Block>)
    ensures
        rot_up_n(s, s.len()) == s,
{
    lemma_rot_up_n_shifts(s, s.len());
    assert(s.subrange(s.len() as int, s.len() as int) + s.subrange(0, s.len() as int) =~= s);
}

} // verus!
