//! A player's private, shuffled walk over the slides of a quiz.
use rand::seq::SliceRandom;
use vstd::prelude::*;
use vstd::multiset::group_multiset_axioms;
use vstd::seq_lib::{group_to_multiset_ensures, lemma_multiset_commutative};

verus! {

broadcast use {group_to_multiset_ensures, group_multiset_axioms};

/// The slide a player is looking at, and when (milliseconds on the server's
/// monotonic clock) it was shown to them.
#[derive(Debug, Clone, Copy, PartialEq, Eq, Structural)]
pub struct CurrentSlide {
    pub starting_time: u64,
    pub index: usize,
}

/// The slide indices `0, 1, ..., n - 1` in increasing order.
pub open spec fn index_range(n: nat) -> Seq<usize> {
    Seq::new(n, |i: int| i as usize)
}

/// `s` holds each of `0..n` exactly once, in some order.
pub open spec fn is_permutation_of_range(s: Seq<usize>, n: nat) -> bool {
    s.to_multiset() == index_range(n).to_multiset()
}

/// What `k` consecutive advances over a remaining stack `stack` hand out:
/// the top of the stack (its last element) first, and `None` once it is empty.
pub open spec fn deal(stack: Seq<usize>, k: nat) -> Seq<Option<usize>>
    decreases k,
{
    if k == 0 {
        Seq::empty()
    } else if stack.len() == 0 {
        seq![None].add(deal(stack, (k - 1) as nat))
    } else {
        seq![Some(stack.last())].add(deal(stack.drop_last(), (k - 1) as nat))
    }
}

/// Relies on rand's `SliceRandom::shuffle` with the thread-local generator:
/// it only swaps elements, so the result is a rearrangement of the input.
#[verifier::external_body]
fn shuffle_in_place(v: &mut Vec<usize>)
    ensures
        final(v)@.to_multiset() == old(v)@.to_multiset(),
{
    v.shuffle(&mut rand::thread_rng());
}

proof fn lemma_deal_at(stack: Seq<usize>, k: nat, i: int)
    requires
        0 <= i < k,
    ensures
        deal(stack, k).len() == k,
        deal(stack, k)[i] == (if i < stack.len() {
            Some(stack[stack.len() - 1 - i])
        } else {
            None::<usize>
        }),
    decreases k,
{
    lemma_deal_len(stack, k);
    if stack.len() == 0 {
        if i > 0 {
            lemma_deal_at(stack, (k - 1) as nat, i - 1);
        }
    } else if i > 0 {
        lemma_deal_at(stack.drop_last(), (k - 1) as nat, i - 1);
    }
}

proof fn lemma_deal_len(stack: Seq<usize>, k: nat)
    ensures
        deal(stack, k).len() == k,
    decreases k,
{
    if k > 0 {
        if stack.len() == 0 {
            lemma_deal_len(stack, (k - 1) as nat);
        } else {
            lemma_deal_len(stack.drop_last(), (k - 1) as nat);
        }
    }
}

/// One advance hands out the first item that `deal` predicts for the deck,
/// and what it predicts for the advanced deck is the rest.
pub proof fn lemma_advance_follows_deal(prev: SlideStack, next: SlideStack, now: u64, k: nat)
    requires
        next.advanced_from(prev, now),
    ensures
        deal(prev.remaining(), k + 1) == seq![
            if prev.remaining().len() == 0 {
                None
            } else {
                Some(prev.remaining().last())
            },
        ].add(deal(next.remaining(), k)),
{
    assert((k + 1) as nat - 1 == k);
}

/// A freshly built deck of size `n` deals, over its first `n` advances,
/// each slide index of `0..n` exactly once, and every advance after those
/// reports that the deck is exhausted.
pub proof fn lemma_fresh_deck_deals_each_slide_once(d: SlideStack, n: nat, extra: nat)
    requires
        d.wf(),
        d.size() == n,
        d.current().is_none(),
        d.answered() == Seq::<usize>::empty(),
    ensures
        deal(d.remaining(), n + extra).len() == n + extra,
        forall|i: int|
            0 <= i < n ==> (#[trigger] deal(d.remaining(), n + extra)[i]) is Some
                && deal(d.remaining(), n + extra)[i]->0 < n,
        forall|i: int, j: int|
            0 <= i < j < n ==> #[trigger] deal(d.remaining(), n + extra)[i] != #[trigger] deal(
                d.remaining(),
                n + extra,
            )[j],
        forall|x: usize|
            x < n ==> #[trigger] deal(d.remaining(), n + extra).take(n as int).contains(Some(x)),
        forall|i: int| n <= i < n + extra ==> (#[trigger] deal(d.remaining(), n + extra)[i]) is None,
{
    let s = d.remaining();
    let r = index_range(n);
    let k = n + extra;
    assert(d.answered() + d.current_seq() + s =~= s);
    assert(s.to_multiset() == r.to_multiset());
    assert(s.len() == n) by {
        assert(s.len() == s.to_multiset().len());
        assert(r.len() == r.to_multiset().len());
    }
    assert(r.no_duplicates()) by {
        assert forall|i: int, j: int| 0 <= i < r.len() && 0 <= j < r.len() && i != j implies r[i] != r[j] by {
            assert(r[i] == i as usize && r[j] == j as usize);
        }
    }
    r.lemma_multiset_has_no_duplicates();
    s.lemma_multiset_has_no_duplicates_conv();
    lemma_deal_len(s, k);
    assert forall|i: int| 0 <= i < n implies (#[trigger] deal(s, k)[i]) is Some && deal(s, k)[i]->0 < n by {
        lemma_deal_at(s, k, i);
        let x = s[n - 1 - i];
        assert(s.contains(x));
        assert(r.to_multiset().count(x) > 0);
        assert(r.contains(x));
    }
    assert forall|i: int, j: int| 0 <= i < j < n implies #[trigger] deal(s, k)[i] != #[trigger] deal(s, k)[j] by {
        lemma_deal_at(s, k, i);
        lemma_deal_at(s, k, j);
    }
    assert forall|x: usize| x < n implies #[trigger] deal(s, k).take(n as int).contains(Some(x)) by {
        assert(r[x as int] == x);
        assert(r.contains(x));
        assert(s.to_multiset().count(x) > 0);
        assert(s.contains(x));
        let j = choose|j: int| 0 <= j < s.len() && s[j] == x;
        lemma_deal_at(s, k, n - 1 - j);
        assert(deal(s, k).take(n as int)[n - 1 - j] == Some(x));
    }
    assert forall|i: int| n <= i < n + extra implies (#[trigger] deal(s, k)[i]) is None by {
        lemma_deal_at(s, k, i);
    }
}

/// A shuffled stack of slide indices with a cursor on the current slide.
pub struct SlideStack {
    slide_stack: Vec<usize>,
    current_slide: Option<CurrentSlide>,
    answered_slides: Vec<usize>,
    size: Ghost<nat>,
}

impl SlideStack {
    /// The indices still to come; the next one is the last element.
    pub closed spec fn remaining(&self) -> Seq<usize> {
        self.slide_stack@
    }

    pub closed spec fn current(&self) -> Option<CurrentSlide> {
        self.current_slide
    }

    /// The indices already advanced past, oldest first.
    pub closed spec fn answered(&self) -> Seq<usize> {
        self.answered_slides@
    }

    /// The number of slides the deck was built over.
    pub closed spec fn size(&self) -> nat {
        self.size@
    }

    pub open spec fn current_seq(&self) -> Seq<usize> {
        match self.current() {
            Some(c) => seq![c.index],
            None => Seq::empty(),
        }
    }

    #[verifier::type_invariant]
    spec fn deck_invariant(&self) -> bool {
        self.wf()
    }

    /// Every index of `0..size` is exactly once in the history, the current
    /// slide or the remaining stack.
    pub open spec fn wf(&self) -> bool {
        &&& self.size() <= usize::MAX
        &&& is_permutation_of_range(self.answered() + self.current_seq() + self.remaining(), self.size())
    }

    /// Every index the deck still holds, current or remaining, is a slide of
    /// the quiz it was built for.
    pub proof fn lemma_indices_below_size(&self)
        requires
            self.wf(),
        ensures
            forall|k: int| 0 <= k < self.remaining().len() ==> #[trigger] self.remaining()[k] < self.size(),
            self.current() is Some ==> self.current()->0.index < self.size(),
    {
        let all = self.answered() + self.current_seq() + self.remaining();
        let r = index_range(self.size());
        assert forall|x: usize| all.contains(x) implies x < self.size() by {
            assert(all.to_multiset().count(x) > 0);
            assert(r.contains(x));
        }
        assert forall|k: int| 0 <= k < self.remaining().len() implies #[trigger] self.remaining()[k] < self.size() by {
            assert(all[all.len() - self.remaining().len() + k] == self.remaining()[k]);
            assert(all.contains(self.remaining()[k]));
        }
        if self.current() is Some {
            assert(all[self.answered().len() as int] == self.current()->0.index);
            assert(all.contains(self.current()->0.index));
        }
    }

    /// `self` is what advancing `prev` at time `now` leaves: the current slide
    /// (if any) joins the history, and the top of the remaining stack (if any)
    /// becomes current, stamped with `now`.
    pub open spec fn advanced_from(&self, prev: SlideStack, now: u64) -> bool {
        &&& self.wf()
        &&& self.size() == prev.size()
        &&& self.answered() == prev.answered() + prev.current_seq()
        &&& prev.remaining().len() == 0 ==> {
            &&& self.current().is_none()
            &&& self.remaining() == prev.remaining()
        }
        &&& prev.remaining().len() > 0 ==> {
            &&& self.current() == Some(
                CurrentSlide { starting_time: now, index: prev.remaining().last() },
            )
            &&& self.remaining() == prev.remaining().drop_last()
        }
    }

    /// Builds a uniformly shuffled deck over `0..size`, with no current slide.
    pub fn new(size: usize) -> (r: Self)
        ensures
            r.wf(),
            r.size() == size,
            is_permutation_of_range(r.remaining(), size as nat),
            r.current().is_none(),
            r.answered() == Seq::<usize>::empty(),
    {
        let mut slide_stack: Vec<usize> = Vec::new();
        let mut i: usize = 0;
        while i < size
            invariant
                i <= size,
                slide_stack@ == index_range(i as nat),
            decreases size - i,
        {
            slide_stack.push(i);
            i = i + 1;
            assert(slide_stack@ =~= index_range(i as nat));
        }
        shuffle_in_place(&mut slide_stack);
        let r = SlideStack {
            slide_stack,
            current_slide: None,
            answered_slides: Vec::new(),
            size: Ghost(size as nat),
        };
        assert(r.answered() + r.current_seq() + r.remaining() =~= r.remaining());
        r
    }

    /// An empty deck over no slides.
    fn empty() -> (r: Self)
        ensures
            r.wf(),
            r.size() == 0,
    {
        assert(index_range(0) =~= Seq::<usize>::empty());
        let r = SlideStack {
            slide_stack: Vec::new(),
            current_slide: None,
            answered_slides: Vec::new(),
            size: Ghost(0),
        };
        assert(r.answered() + r.current_seq() + r.remaining() =~= Seq::<usize>::empty());
        r
    }

    /// Moves the current slide (if any) to the history and makes the top of
    /// the remaining stack current, stamped with `now`. Returns its index, or
    /// `None` (and no current slide) once the stack is exhausted.
    pub fn next_slide(&mut self, now: u64) -> (r: Option<usize>)
        ensures
            final(self).advanced_from(*old(self), now),
            r == (if old(self).remaining().len() == 0 {
                None
            } else {
                Some(old(self).remaining().last())
            }),
            r is Some ==> r->0 < old(self).size(),
    {
        proof {
            use_type_invariant(&*self);
            self.lemma_indices_below_size();
        }
        let mut taken = SlideStack::empty();
        std::mem::swap(&mut taken, self);
        let SlideStack { mut slide_stack, current_slide, mut answered_slides, size } = taken;
        let next = slide_stack.pop();
        if let Some(current_slide) = &current_slide {
            answered_slides.push(current_slide.index);
        }
        let current_slide = match next {
            Some(index) => Some(CurrentSlide { starting_time: now, index }),
            None => None,
        };
        proof {
            let a = old(self).answered();
            let c = old(self).current_seq();
            let s = old(self).remaining();
            let before = a + c + s;
            let cs = match current_slide {
                Some(cur) => seq![cur.index],
                None => Seq::<usize>::empty(),
            };
            let after = answered_slides@ + cs + slide_stack@;
            assert(answered_slides@ =~= a + c);
            if s.len() == 0 {
                assert(after =~= before);
            } else {
                assert(before =~= (a + c) + (s.drop_last() + seq![s.last()]));
                assert(after =~= (a + c) + (seq![s.last()] + s.drop_last()));
                lemma_multiset_commutative(a + c, s.drop_last() + seq![s.last()]);
                lemma_multiset_commutative(a + c, seq![s.last()] + s.drop_last());
                lemma_multiset_commutative(s.drop_last(), seq![s.last()]);
                lemma_multiset_commutative(seq![s.last()], s.drop_last());
                assert(after.to_multiset() =~= before.to_multiset());
            }
            assert(after.to_multiset() == before.to_multiset());
        }
        let advanced = SlideStack { slide_stack, current_slide, answered_slides, size };
        *self = advanced;
        next
    }

    /// The active slide and its activation time, if any.
    pub fn current_slide(&self) -> (r: Option<CurrentSlide>)
        ensures
            r == self.current(),
    {
        self.current_slide
    }
}

} // verus!
