//! The live side of the stream: the latest initialization segment and a
//! bounded backlog of the newest fragments, from which a subscriber that
//! joins late or falls behind catches up.

use std::collections::VecDeque;
use vstd::prelude::*;
use vstd::slice::slice_to_vec;

verus! {

/// The most fragments that a backlog keeps.
pub const MAX_BACKLOG: usize = 240;

/// An initialization segment and the codec string that goes with it.
#[derive(Clone, Debug)]
pub struct CmafInit {
    pub bytes: Vec<u8>,
    pub codec: Vec<u8>,
}

/// One part of the stream with its number.
#[derive(Clone, Debug)]
pub struct CmafFragment {
    pub seq: u64,
    pub bytes: Vec<u8>,
}

/// What a fragment holds.
pub struct FragmentModel {
    pub seq: u64,
    pub bytes: Seq<u8>,
}

impl View for CmafFragment {
    type V = FragmentModel;

    open spec fn view(&self) -> FragmentModel {
        FragmentModel { seq: self.seq, bytes: self.bytes@ }
    }
}

/// The models of a list of fragments.
pub open spec fn fragment_views(fragments: Seq<CmafFragment>) -> Seq<FragmentModel> {
    Seq::new(fragments.len(), |i: int| fragments[i]@)
}

/// What a stream holds.
pub struct StreamModel {
    /// The latest initialization segment: its bytes and its codec string.
    pub init: Option<(Seq<u8>, Seq<u8>)>,
    /// The newest fragments, oldest first.
    pub backlog: Seq<FragmentModel>,
    /// The number of the next fragment.
    pub next_seq: u64,
    /// How many fragments the backlog keeps; at least one.
    pub capacity: int,
}

/// The latest initialization segment and the backlog of one stream.
pub struct CmafStream {
    init: Option<CmafInit>,
    backlog: VecDeque<CmafFragment>,
    next_seq: u64,
    backlog_capacity: usize,
}

impl View for CmafStream {
    type V = StreamModel;

    closed spec fn view(&self) -> StreamModel {
        StreamModel {
            init: match self.init {
                Some(i) => Some((i.bytes@, i.codec@)),
                None => None,
            },
            backlog: fragment_views(self.backlog@),
            next_seq: self.next_seq,
            capacity: self.backlog_capacity as int,
        }
    }
}

/// The number of fragments to keep for `backlog` ticks of video in parts of
/// `part` ticks: as many parts as cover the backlog, at least 1 and at most
/// 240.
pub open spec fn capacity_for(backlog: u64, part: u64) -> int {
    let parts: int = if part == 0 {
        0
    } else if backlog % part > 0 {
        backlog / part + 1
    } else {
        (backlog / part) as int
    };
    if parts < 1 {
        1
    } else if parts > 240 {
        240
    } else {
        parts
    }
}

/// The number of fragments to keep for `backlog` ticks of video in parts of
/// `part` ticks. A part of zero ticks asks for the smallest backlog.
pub fn backlog_capacity(backlog: u64, part: u64) -> (r: usize)
    ensures
        r == capacity_for(backlog, part),
        1 <= r <= MAX_BACKLOG,
{
    if part == 0 {
        return 1;
    }
    let whole: u64 = backlog / part;
    if whole >= 240 {
        return MAX_BACKLOG;
    }
    let parts: u64 = if backlog % part > 0 { whole + 1 } else { whole };
    if parts < 1 {
        1
    } else {
        parts as usize
    }
}

/// The number after `n`; it starts again at zero after the largest.
pub open spec fn following(n: u64) -> u64 {
    if n == 0xFFFF_FFFF_FFFF_FFFF {
        0
    } else {
        (n + 1) as u64
    }
}

/// The stream after a fragment with the given bytes has been sent: the
/// fragment takes the next number and joins the backlog, and the oldest
/// fragments leave where the backlog is full.
pub open spec fn sent(m: StreamModel, bytes: Seq<u8>) -> StreamModel {
    let grown = m.backlog.push(FragmentModel { seq: m.next_seq, bytes });
    StreamModel {
        backlog: if grown.len() > m.capacity {
            grown.skip(grown.len() - m.capacity)
        } else {
            grown
        },
        next_seq: following(m.next_seq),
        ..m
    }
}

/// The fragments among the first `n` of a backlog with a number above `last`.
pub open spec fn newer_than(backlog: Seq<FragmentModel>, last: u64, n: int) -> Seq<FragmentModel>
    decreases n,
{
    if n <= 0 {
        Seq::empty()
    } else if backlog[n - 1].seq > last {
        newer_than(backlog, last, n - 1).push(backlog[n - 1])
    } else {
        newer_than(backlog, last, n - 1)
    }
}

/// The models of a list with one more fragment are the models of the list
/// with the model of that fragment.
pub proof fn lemma_fragment_views_push(fragments: Seq<CmafFragment>, f: CmafFragment)
    ensures
        fragment_views(fragments.push(f)) == fragment_views(fragments).push(f@),
{
    assert(fragment_views(fragments.push(f)) =~= fragment_views(fragments).push(f@));
}

/// A copy of a fragment.
fn copy_fragment(f: &CmafFragment) -> (r: CmafFragment)
    ensures
        r@ == f@,
{
    CmafFragment { seq: f.seq, bytes: slice_to_vec(f.bytes.as_slice()) }
}

impl CmafStream {
    /// The backlog holds no more than its capacity, which is at least one.
    pub open spec fn wf(&self) -> bool {
        1 <= self@.capacity && self@.backlog.len() <= self@.capacity
    }

    /// A stream without an initialization segment and with an empty backlog
    /// of the given capacity, or of one where none is asked for. The first
    /// fragment gets the number 1.
    pub fn new(backlog_capacity: usize) -> (r: Self)
        ensures
            r.wf(),
            r@ == (StreamModel {
                init: None,
                backlog: Seq::empty(),
                next_seq: 1,
                capacity: if backlog_capacity < 1 {
                    1
                } else {
                    backlog_capacity as int
                },
            }),
    {
        let capacity: usize = if backlog_capacity < 1 { 1 } else { backlog_capacity };
        let r = CmafStream {
            init: None,
            backlog: VecDeque::new(),
            next_seq: 1,
            backlog_capacity: capacity,
        };
        assert(r@.backlog =~= Seq::<FragmentModel>::empty());
        r
    }

    /// Replaces the initialization segment.
    pub fn update_init(&mut self, init: CmafInit)
        ensures
            final(self)@ == (StreamModel { init: Some((init.bytes@, init.codec@)), ..old(self)@ }),
    {
        self.init = Some(init);
    }

    /// The latest initialization segment.
    pub fn init(&self) -> (r: Option<&CmafInit>)
        ensures
            match r {
                Some(i) => self@.init == Some((i.bytes@, i.codec@)),
                None => self@.init.is_none(),
            },
    {
        self.init.as_ref()
    }

    /// Numbers a fragment, puts it into the backlog and returns it for
    /// sending to the subscribers.
    pub fn send_fragment(&mut self, fragment: Vec<u8>) -> (r: CmafFragment)
        requires
            old(self).wf(),
        ensures
            final(self).wf(),
            final(self)@ == sent(old(self)@, fragment@),
            r@ == (FragmentModel { seq: old(self)@.next_seq, bytes: fragment@ }),
    {
        let seq: u64 = self.next_seq;
        self.next_seq = if seq == 0xFFFF_FFFF_FFFF_FFFF { 0 } else { seq + 1 };
        let entry = CmafFragment { seq, bytes: fragment };
        let copy = copy_fragment(&entry);
        proof {
            lemma_fragment_views_push(self.backlog@, entry);
        }
        let ghost before = self.backlog@;
        self.backlog.push_back(entry);
        let ghost grown = fragment_views(self.backlog@);
        if self.backlog.len() > self.backlog_capacity {
            let ghost full = self.backlog@;
            let gone = self.backlog.pop_front();
            assert(fragment_views(self.backlog@) =~= grown.skip(1)) by {
                assert forall|k: int| 0 <= k < self.backlog@.len() implies fragment_views(
                    self.backlog@,
                )[k] == grown.skip(1)[k] by {
                    assert(self.backlog@[k] == full[k + 1]);
                    assert(fragment_views(full)[k + 1] == full[k + 1]@);
                }
            }
        }
        copy
    }

    /// The fragments of the backlog, oldest first.
    pub fn backlog_snapshot(&self) -> (r: Vec<CmafFragment>)
        ensures
            fragment_views(r@) == self@.backlog,
    {
        let mut out: Vec<CmafFragment> = Vec::new();
        let mut i: usize = 0;
        while i < self.backlog.len()
            invariant
                i <= self.backlog@.len(),
                fragment_views(out@) =~= fragment_views(self.backlog@).take(i as int),
            decreases self.backlog@.len() - i,
        {
            let f = copy_fragment(&self.backlog[i]);
            proof {
                lemma_fragment_views_push(out@, f);
                assert(fragment_views(self.backlog@).take(i + 1) =~= fragment_views(
                    self.backlog@,
                ).take(i as int).push(fragment_views(self.backlog@)[i as int]));
            }
            out.push(f);
            i += 1;
        }
        assert(fragment_views(self.backlog@).take(i as int) =~= fragment_views(self.backlog@));
        out
    }

    /// The fragments of the backlog that a subscriber has not seen yet: those
    /// with a number above the last one forwarded to it, oldest first.
    pub fn fragments_after(&self, last_forwarded: u64) -> (r: Vec<CmafFragment>)
        ensures
            fragment_views(r@) == newer_than(
                self@.backlog,
                last_forwarded,
                self@.backlog.len() as int,
            ),
    {
        let mut out: Vec<CmafFragment> = Vec::new();
        let ghost all = fragment_views(self.backlog@);
        let mut i: usize = 0;
        assert(fragment_views(out@) =~= newer_than(all, last_forwarded, 0));
        while i < self.backlog.len()
            invariant
                i <= self.backlog@.len(),
                all == fragment_views(self.backlog@),
                fragment_views(out@) == newer_than(all, last_forwarded, i as int),
            decreases self.backlog@.len() - i,
        {
            assert(all[i as int] == self.backlog@[i as int]@);
            if self.backlog[i].seq > last_forwarded {
                let f = copy_fragment(&self.backlog[i]);
                proof {
                    lemma_fragment_views_push(out@, f);
                }
                out.push(f);
            }
            i += 1;
        }
        out
    }
}

/// How far one subscriber has been served.
#[derive(Clone, Copy, Debug)]
pub struct FragmentCursor {
    /// The number of the last fragment forwarded; zero before the first.
    pub last_forwarded: u64,
}

impl FragmentCursor {
    /// The cursor of a subscriber that has been served nothing.
    pub fn new() -> (r: Self)
        ensures
            r.last_forwarded == 0,
    {
        FragmentCursor { last_forwarded: 0 }
    }

    /// Decides whether the fragment numbered `seq` goes to the subscriber:
    /// it does when its number is above the last one forwarded, and then
    /// counts as forwarded.
    pub fn accept(&mut self, seq: u64) -> (forward: bool)
        ensures
            forward == (seq > old(self).last_forwarded),
            final(self).last_forwarded == if forward {
                seq
            } else {
                old(self).last_forwarded
            },
    {
        if seq > self.last_forwarded {
            self.last_forwarded = seq;
            true
        } else {
            false
        }
    }
}

} // verus!
