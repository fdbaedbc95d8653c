//! Memory that requests share, one after the other: an arena and a buffer, kept in a
//! bounded pool and never handed on with anything in it.
use vstd::prelude::*;

verus! {

/// The memory that a returned scratch may hold on to.
pub const RETAIN_CAP_BYTES: usize = 65536;

/// The parts of the pool.
pub const STRIPES: usize = 8;

/// The most that one part of the pool holds.
pub const PER_STRIPE_CAP: usize = 8;

/// The arena, `bumpalo::Bump`.
#[verifier::external_type_specification]
#[verifier::external_body]
pub struct ExBump<const MIN_ALIGN: usize>(bumpalo::Bump<MIN_ALIGN>);

/// What is live in an arena: what was allocated since it was made or last reset, and not
/// freed.
pub uninterp spec fn arena_contents(arena: bumpalo::Bump) -> Seq<Seq<u8>>;

/// `bumpalo::Bump::new`: an arena in which nothing is allocated.
#[verifier::external_body]
fn new_arena() -> (arena: bumpalo::Bump)
    ensures
        arena_contents(arena) == Seq::<Seq<u8>>::empty(),
{
    bumpalo::Bump::new()
}

/// `bumpalo::Bump::reset`: frees all that was allocated in the arena at once.
#[verifier::external_body]
fn reset_arena(arena: &mut bumpalo::Bump)
    ensures
        arena_contents(*final(arena)) == Seq::<Seq<u8>>::empty(),
{
    arena.reset();
}

/// The bytes in all of `parts`.
pub open spec fn total(parts: Seq<Seq<u8>>) -> nat
    decreases parts.len(),
{
    if parts.len() == 0 {
        0
    } else {
        total(parts.drop_last()) + parts.last().len()
    }
}

/// `bumpalo::Bump::allocated_bytes`: the size of the arena's chunks. All that is live in
/// the arena lies in them, each part by itself; how much larger they are is left unsaid.
#[verifier::external_body]
fn arena_bytes(arena: &bumpalo::Bump) -> (n: usize)
    ensures
        n >= total(arena_contents(*arena)),
{
    arena.allocated_bytes()
}

/// `Vec::capacity`: how much the buffer holds on to. There is room for all that is in it;
/// how much more there is, is up to the allocator.
#[verifier::external_body]
fn buffer_bytes(buffer: &Vec<u8>) -> (n: usize)
    ensures
        n >= buffer@.len(),
{
    buffer.capacity()
}

/// The memory of one request.
pub struct RequestScratch {
    pub bump: bumpalo::Bump,
    pub frame_buf: Vec<u8>,
}

impl RequestScratch {
    /// Whether there is nothing in it.
    pub open spec fn is_clean(&self) -> bool {
        arena_contents(self.bump) == Seq::<Seq<u8>>::empty() && self.frame_buf@.len() == 0
    }
}

impl Default for RequestScratch {
    fn default() -> (s: RequestScratch)
        ensures
            s.is_clean(),
    {
        RequestScratch { bump: new_arena(), frame_buf: Vec::new() }
    }
}

/// The memory that is not in use.
pub struct ScratchPool {
    stripes: Vec<Vec<RequestScratch>>,
    next: usize,
}

/// Whether a scratch is kept when it comes back: not when its arena or its buffer grew
/// too large, and not when the stripe is full.
pub open spec fn is_kept(arena: usize, buffer: usize, in_stripe: nat) -> bool {
    arena <= RETAIN_CAP_BYTES && buffer <= RETAIN_CAP_BYTES && in_stripe < PER_STRIPE_CAP
}

impl ScratchPool {
    /// The number of scratches in each stripe.
    pub closed spec fn view(&self) -> Seq<nat> {
        self.stripes@.map_values(|s: Vec<RequestScratch>| s@.len())
    }

    /// The number that picks the next stripe.
    pub closed spec fn turn(&self) -> usize {
        self.next
    }

    /// The stripe that is next.
    pub open spec fn stripe(&self) -> int {
        self.turn() as int % STRIPES as int
    }

    /// Whether there is nothing in any scratch of the pool.
    pub closed spec fn is_clean(&self) -> bool {
        forall|i: int, j: int|
            0 <= i < self.stripes@.len() && 0 <= j < self.stripes@[i]@.len()
                ==> (#[trigger] self.stripes@[i]@[j]).is_clean()
    }

    /// All stripes are there, none holds more than it may, and nothing of a request is
    /// left in them.
    pub open spec fn wf(&self) -> bool {
        &&& self.is_clean()
        &&& self@.len() == STRIPES
        &&& forall|i: int| 0 <= i < STRIPES ==> #[trigger] self@[i] <= PER_STRIPE_CAP
    }

    pub fn new() -> (p: ScratchPool)
        ensures
            p.wf(),
            p.turn() == 0,
            forall|i: int| 0 <= i < STRIPES ==> #[trigger] p@[i] == 0,
    {
        let mut stripes: Vec<Vec<RequestScratch>> = Vec::new();
        let mut i: usize = 0;
        while i < STRIPES
            invariant
                i <= STRIPES,
                stripes@.len() == i,
                forall|j: int| 0 <= j < i ==> (#[trigger] stripes@[j])@.len() == 0,
            decreases STRIPES - i,
        {
            stripes.push(Vec::new());
            i += 1;
        }
        ScratchPool { stripes, next: 0 }
    }

    /// Takes a scratch from the next stripe, or a new one where there is none. Either way
    /// its arena is reset and its buffer is empty.
    pub fn checkout(&mut self) -> (s: RequestScratch)
        requires
            old(self).wf(),
        ensures
            forall|i: int|
                0 <= i < 8 && i != old(self).turn() % 8 ==> #[trigger] final(self)@[i]
                    == old(self)@[i],
            ({
                let s = (old(self).turn() % 8) as int;
                old(self)@[s] > 0 ==> final(self)@[s] == old(self)@[s] - 1
            }),
            final(self).wf(),
            s.is_clean(),
            final(self).turn() == old(self).turn().wrapping_add(1),
            final(self)@ == old(self)@.update(
                old(self).stripe(),
                if old(self)@[old(self).stripe()] == 0 {
                    0
                } else {
                    (old(self)@[old(self).stripe()] - 1) as nat
                },
            ),
    {
        let stripe: usize = self.next % STRIPES;
        self.next = self.next.wrapping_add(1);
        let ghost before = self.stripes@;
        assert(self@[stripe as int] == before[stripe as int]@.len());
        let mut free: Vec<RequestScratch> = Vec::new();
        std::mem::swap(&mut free, &mut self.stripes[stripe]);
        let taken: Option<RequestScratch> = free.pop();
        std::mem::swap(&mut free, &mut self.stripes[stripe]);
        assert(self@ =~= old(self)@.update(
            stripe as int,
            if old(self)@[stripe as int] == 0 {
                0
            } else {
                (old(self)@[stripe as int] - 1) as nat
            },
        ));
        let mut scratch: RequestScratch = match taken {
            Some(s) => s,
            None => RequestScratch::default(),
        };
        reset_arena(&mut scratch.bump);
        scratch.frame_buf.clear();
        scratch
    }

    /// Puts a scratch into the next stripe, empty, if what it holds on to is small enough
    /// and the stripe has room; the next stripe moves on unless the scratch is too large.
    pub fn put_back(&mut self, scratch: RequestScratch, arena: usize, buffer: usize)
        requires
            old(self).wf(),
        ensures
            ({
                let s = (old(self).turn() % 8) as int;
                arena <= 65536 && buffer <= 65536 && old(self)@[s] < 8 ==> final(self)@[s]
                    == old(self)@[s] + 1
            }),
            arena > 65536 || buffer > 65536 ==> final(self)@ == old(self)@,
            forall|i: int|
                0 <= i < 8 && i != old(self).turn() % 8 ==> #[trigger] final(self)@[i]
                    == old(self)@[i],
            final(self).wf(),
            if arena > RETAIN_CAP_BYTES || buffer > RETAIN_CAP_BYTES {
                *final(self) == *old(self)
            } else {
                &&& final(self).turn() == old(self).turn().wrapping_add(1)
                &&& final(self)@ == (if is_kept(
                    arena,
                    buffer,
                    old(self)@[old(self).stripe()],
                ) {
                    old(self)@.update(
                        old(self).stripe(),
                        (old(self)@[old(self).stripe()] + 1) as nat,
                    )
                } else {
                    old(self)@
                })
            },
    {
        if arena > RETAIN_CAP_BYTES || buffer > RETAIN_CAP_BYTES {
            return;
        }
        let mut scratch = scratch;
        reset_arena(&mut scratch.bump);
        scratch.frame_buf.clear();
        let stripe: usize = self.next % STRIPES;
        self.next = self.next.wrapping_add(1);
        assert(old(self)@[stripe as int] == self.stripes@[stripe as int]@.len());
        if self.stripes[stripe].len() < PER_STRIPE_CAP {
            let mut free: Vec<RequestScratch> = Vec::new();
            std::mem::swap(&mut free, &mut self.stripes[stripe]);
            free.push(scratch);
            std::mem::swap(&mut free, &mut self.stripes[stripe]);
            assert(self@ =~= old(self)@.update(
                stripe as int,
                (old(self)@[stripe as int] + 1) as nat,
            ));
        } else {
            assert(self@ =~= old(self)@);
        }
    }

    /// A request is over and its scratch comes back: into the next stripe, or nowhere. One
    /// whose arena or buffer is filled beyond what may be held on to is never kept. Of any
    /// other, which of the two it is also depends on how much memory it was given.
    pub fn checkin(&mut self, scratch: RequestScratch)
        requires
            old(self).wf(),
        ensures
            final(self).wf(),
            total(arena_contents(scratch.bump)) > RETAIN_CAP_BYTES ==> *final(self) == *old(self),
            scratch.frame_buf@.len() > RETAIN_CAP_BYTES ==> *final(self) == *old(self),
            ({
                let s = old(self).stripe();
                ||| *final(self) == *old(self)
                ||| final(self).turn() == old(self).turn().wrapping_add(1) && final(self)@ == (
                if old(self)@[s] < PER_STRIPE_CAP {
                    old(self)@.update(s, (old(self)@[s] + 1) as nat)
                } else {
                    old(self)@
                })
            }),
    {
        let arena: usize = arena_bytes(&scratch.bump);
        let buffer: usize = buffer_bytes(&scratch.frame_buf);
        self.put_back(scratch, arena, buffer);
    }
}

/// A scratch is kept while neither its arena nor its buffer holds on to more than 64 KiB
/// and there is room for it in its stripe: what is smaller than one that is kept is kept
/// too.
pub proof fn small_scratches_are_kept(arena: usize, buffer: usize, in_stripe: nat)
    ensures
        is_kept(arena, buffer, in_stripe) <==> arena <= 64 * 1024 && buffer <= 64 * 1024
            && in_stripe < 8,
        forall|a: usize, b: usize, n: nat|
            is_kept(arena, buffer, in_stripe) && a <= arena && b <= buffer && n <= in_stripe
                ==> #[trigger] is_kept(a, b, n),
{
}

} // verus!
