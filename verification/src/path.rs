//! The paths of a connection, as the schedulers see them.

use vstd::prelude::*;

use crate::time::Duration;

verus! {

/// What a scheduling request can fail with.
#[derive(Clone, Copy, Debug, PartialEq, Eq, Structural)]
pub enum Error {
    /// Nothing should be sent for now.
    Done,
    /// A path was named that the connection does not have.
    InternalError,
}

/// Loss recovery and congestion state of one path.
#[derive(Clone, Copy, Debug, PartialEq, Eq, Structural)]
pub struct Recovery {
    /// Whether congestion control and pacing let a packet out now.
    pub can_send: bool,
    /// The smoothed round-trip time; zero while no sample was taken.
    pub smoothed_rtt: Duration,
    /// The congestion window, in bytes.
    pub congestion_window: u64,
    /// Packets lost so far.
    pub lost_count: u64,
    /// The largest datagram that the path takes, in bytes.
    pub max_datagram_size: usize,
}

/// One path of a connection.
#[derive(Clone, Copy, Debug, PartialEq, Eq, Structural)]
pub struct Path {
    /// Whether the path is in use.
    pub active: bool,
    /// Whether the peer's address was validated.
    pub validated: bool,
    /// The sequence number of the connection ID that packets to the peer carry.
    pub dcid_seq: Option<u64>,
    pub recovery: Recovery,
}

/// Which paths take part in a search.
#[derive(Clone, Copy, Debug, PartialEq, Eq, Structural)]
pub enum Eligibility {
    /// Active paths with a connection ID to address the peer by.
    Addressable,
    /// Active paths whose peer address is validated.
    Validated,
    /// Validated paths that can send now.
    Available,
    /// Active paths that can send now.
    Ready,
}

impl Eligibility {
    /// Whether `path` takes part.
    pub open spec fn admits(self, path: Path) -> bool {
        match self {
            Eligibility::Addressable => path.active && path.dcid_seq is Some,
            Eligibility::Validated => path.active && path.validated,
            Eligibility::Available => path.active && path.validated && path.recovery.can_send,
            Eligibility::Ready => path.active && path.recovery.can_send,
        }
    }

    fn check(&self, path: &Path) -> (res: bool)
        ensures
            res == self.admits(*path),
    {
        match self {
            Eligibility::Addressable => path.active && path.dcid_seq.is_some(),
            Eligibility::Validated => path.active && path.validated,
            Eligibility::Available => path.active && path.validated && path.recovery.can_send,
            Eligibility::Ready => path.active && path.recovery.can_send,
        }
    }
}

/// `s[i]` is the admitted entry with the lowest round-trip time, and the first
/// of those that share it.
pub open spec fn is_first_min(s: Seq<(usize, Path)>, el: Eligibility, i: int) -> bool {
    &&& 0 <= i < s.len()
    &&& el.admits(s[i].1)
    &&& forall|j: int|
        #![trigger s[j]]
        0 <= j < s.len() && el.admits(s[j].1) ==> {
            &&& s[i].1.recovery.smoothed_rtt.nanos <= s[j].1.recovery.smoothed_rtt.nanos
            &&& j < i ==> s[i].1.recovery.smoothed_rtt.nanos
                < s[j].1.recovery.smoothed_rtt.nanos
        }
}

/// The ID of the admitted path with the lowest round-trip time, the first one
/// in order where several share it; `None` where no path is admitted.
pub open spec fn min_rtt(s: Seq<(usize, Path)>, el: Eligibility) -> Option<usize> {
    if exists|i: int| is_first_min(s, el, i) {
        Some(s[choose|i: int| is_first_min(s, el, i)].0)
    } else {
        None
    }
}

/// The path that `pid` names.
pub open spec fn lookup(s: Seq<(usize, Path)>, pid: usize) -> Option<Path> {
    if exists|i: int| 0 <= i < s.len() && (#[trigger] s[i]).0 == pid {
        Some(s[choose|i: int| 0 <= i < s.len() && (#[trigger] s[i]).0 == pid].1)
    } else {
        None
    }
}

/// No ID names two paths.
pub open spec fn distinct_ids(s: Seq<(usize, Path)>) -> bool {
    forall|i: int, j: int| 0 <= i < j < s.len() ==> (#[trigger] s[i]).0 != (#[trigger] s[j]).0
}

/// The sum of the congestion windows of the admitted paths.
pub open spec fn total_window(s: Seq<(usize, Path)>, el: Eligibility) -> nat
    decreases s.len(),
{
    if s.len() == 0 {
        0
    } else {
        total_window(s.drop_last(), el) + if el.admits(s.last().1) {
            s.last().1.recovery.congestion_window as nat
        } else {
            0
        }
    }
}

/// At most one entry is the first minimum.
pub proof fn lemma_first_min_unique(s: Seq<(usize, Path)>, el: Eligibility, i: int, j: int)
    requires
        is_first_min(s, el, i),
        is_first_min(s, el, j),
    ensures
        i == j,
{
}

/// The first minimum is what `min_rtt` names.
pub proof fn lemma_min_rtt_is(s: Seq<(usize, Path)>, el: Eligibility, i: int)
    requires
        is_first_min(s, el, i),
    ensures
        min_rtt(s, el) == Some(s[i].0),
{
    let c = choose|c: int| is_first_min(s, el, c);
    lemma_first_min_unique(s, el, i, c);
}

/// The search finds a path exactly where one is admitted, and that path is an
/// admitted one with the lowest round-trip time.
pub proof fn lemma_min_rtt(s: Seq<(usize, Path)>, el: Eligibility) -> (i: int)
    ensures
        min_rtt(s, el) is Some <==> exists|j: int|
            0 <= j < s.len() && el.admits((#[trigger] s[j]).1),
        min_rtt(s, el) is Some ==> is_first_min(s, el, i) && min_rtt(s, el) == Some(s[i].0),
    decreases s.len(),
{
    if s.len() == 0 {
        0
    } else {
        let t = s.drop_last();
        let n = s.len() - 1;
        let b = lemma_min_rtt(t, el);
        assert(forall|j: int| 0 <= j < n ==> #[trigger] t[j] == s[j]);
        let i = if min_rtt(t, el) is Some && !(el.admits(s[n].1)
            && s[n].1.recovery.smoothed_rtt.nanos < t[b].1.recovery.smoothed_rtt.nanos) {
            b
        } else {
            n
        };
        if min_rtt(t, el) is Some {
            assert(is_first_min(s, el, i)) by {
                assert forall|j: int| #![trigger s[j]]
                    0 <= j < s.len() && el.admits(s[j].1) implies {
                    &&& s[i].1.recovery.smoothed_rtt.nanos <= s[j].1.recovery.smoothed_rtt.nanos
                    &&& j < i ==> s[i].1.recovery.smoothed_rtt.nanos
                        < s[j].1.recovery.smoothed_rtt.nanos
                } by {
                    if j < n {
                        assert(t[j] == s[j]);
                    }
                }
            }
            lemma_min_rtt_is(s, el, i);
            assert(el.admits(s[i].1));
        } else if el.admits(s[n].1) {
            assert forall|j: int| 0 <= j < n implies !el.admits((#[trigger] s[j]).1) by {
                assert(t[j] == s[j]);
            }
            assert(is_first_min(s, el, n));
            lemma_min_rtt_is(s, el, n);
        } else {
            assert forall|j: int| 0 <= j < s.len() implies !el.admits((#[trigger] s[j]).1) by {
                if j < n {
                    assert(t[j] == s[j]);
                }
            }
        }
        i
    }
}

/// Where IDs are distinct, an entry's ID looks up that entry's path.
pub proof fn lemma_lookup(s: Seq<(usize, Path)>, i: int)
    requires
        distinct_ids(s),
        0 <= i < s.len(),
    ensures
        lookup(s, s[i].0) == Some(s[i].1),
{
    let c = choose|c: int| 0 <= c < s.len() && (#[trigger] s[c]).0 == s[i].0;
    assert(s[i].0 == s[i].0);
    assert(c == i);
}

/// A prefix has no larger a total than the whole.
proof fn lemma_total_window_take(s: Seq<(usize, Path)>, el: Eligibility, k: int)
    requires
        0 <= k <= s.len(),
    ensures
        total_window(s.take(k), el) <= total_window(s, el),
    decreases s.len() - k,
{
    if k == s.len() {
        assert(s.take(k) =~= s);
    } else {
        lemma_total_window_take(s, el, k + 1);
        assert(s.take(k + 1).drop_last() =~= s.take(k));
    }
}

/// An admitted path's window is part of the total.
pub proof fn lemma_window_in_total(s: Seq<(usize, Path)>, el: Eligibility, i: int)
    requires
        0 <= i < s.len(),
        el.admits(s[i].1),
    ensures
        s[i].1.recovery.congestion_window <= total_window(s, el),
{
    lemma_total_window_take(s, el, i + 1);
    assert(s.take(i + 1).last() == s[i]);
}

/// Windows of at most `bound` bytes add up to at most `bound` times their number.
pub proof fn lemma_total_window_bound(s: Seq<(usize, Path)>, el: Eligibility, bound: nat)
    requires
        forall|i: int|
            0 <= i < s.len() ==> (#[trigger] s[i]).1.recovery.congestion_window <= bound,
    ensures
        total_window(s, el) <= s.len() * bound,
    decreases s.len(),
{
    if s.len() > 0 {
        let t = s.drop_last();
        assert forall|i: int| 0 <= i < t.len() implies (
        #[trigger] t[i]).1.recovery.congestion_window <= bound by {
            assert(t[i] == s[i]);
        }
        lemma_total_window_bound(t, el, bound);
        assert(s.len() * bound == t.len() * bound + bound) by (nonlinear_arith)
            requires
                s.len() == t.len() + 1,
        ;
    }
}

/// The paths of a connection by their IDs, in a fixed order.
pub struct PathMap {
    entries: Vec<(usize, Path)>,
}

impl View for PathMap {
    type V = Seq<(usize, Path)>;

    closed spec fn view(&self) -> Seq<(usize, Path)> {
        self.entries@
    }
}

impl PathMap {
    /// No ID names two paths.
    pub open spec fn wf(&self) -> bool {
        distinct_ids(self@)
    }

    /// A connection without paths.
    pub fn new() -> (res: PathMap)
        ensures
            res@ == Seq::<(usize, Path)>::empty(),
            res.wf(),
    {
        PathMap { entries: Vec::new() }
    }

    /// Puts `path` under `pid`: in place of the path that `pid` names, or at
    /// the end where it names none.
    pub fn insert(&mut self, pid: usize, path: Path)
        requires
            old(self).wf(),
        ensures
            final(self).wf(),
            lookup(old(self)@, pid) is None ==> final(self)@ == old(self)@.push((pid, path)),
            lookup(old(self)@, pid) is Some ==> exists|i: int|
                0 <= i < old(self)@.len() && (#[trigger] old(self)@[i]).0 == pid && final(self)@
                    == old(self)@.update(i, (pid, path)),
    {
        let mut i: usize = 0;
        while i < self.entries.len()
            invariant
                i <= self.entries@.len(),
                self.entries@ == old(self)@,
                old(self).wf(),
                forall|j: int| 0 <= j < i ==> (#[trigger] self.entries@[j]).0 != pid,
            decreases self.entries.len() - i,
        {
            if self.entries[i].0 == pid {
                assert(old(self)@[i as int].0 == pid);
                self.entries.set(i, (pid, path));
                return;
            }
            i += 1;
        }
        self.entries.push((pid, path));
    }

    /// The path that `pid` names.
    pub fn get(&self, pid: usize) -> (res: Result<&Path, Error>)
        requires
            self.wf(),
        ensures
            match res {
                Ok(path) => lookup(self@, pid) == Some(*path),
                Err(e) => lookup(self@, pid) is None && e == Error::InternalError,
            },
    {
        let mut i: usize = 0;
        while i < self.entries.len()
            invariant
                i <= self.entries@.len(),
                self.wf(),
                forall|j: int| 0 <= j < i ==> (#[trigger] self.entries@[j]).0 != pid,
            decreases self.entries.len() - i,
        {
            if self.entries[i].0 == pid {
                proof {
                    lemma_lookup(self@, i as int);
                }
                return Ok(&self.entries[i].1);
            }
            i += 1;
        }
        Err(Error::InternalError)
    }

    /// The admitted path with the lowest round-trip time.
    pub fn find_min_rtt(&self, el: Eligibility) -> (res: Option<usize>)
        ensures
            res == min_rtt(self@, el),
    {
        let mut best: Option<usize> = None;
        let mut i: usize = 0;
        while i < self.entries.len()
            invariant
                i <= self.entries@.len(),
                best matches Some(b) ==> is_first_min(self.entries@.take(i as int), el, b as int),
                best is None ==> forall|j: int|
                    0 <= j < i ==> !el.admits((#[trigger] self.entries@[j]).1),
            decreases self.entries.len() - i,
        {
            let ghost old_best = best;
            if el.check(&self.entries[i].1) {
                let rtt: u128 = self.entries[i].1.recovery.smoothed_rtt.nanos;
                match best {
                    Some(b) => {
                        if rtt < self.entries[b].1.recovery.smoothed_rtt.nanos {
                            best = Some(i);
                        }
                    },
                    None => {
                        best = Some(i);
                    },
                }
            }
            proof {
                let t = self.entries@.take(i as int);
                let u = self.entries@.take(i + 1);
                assert(forall|j: int| 0 <= j < i ==> #[trigger] u[j] == t[j]);
                if let Some(b) = best {
                    assert forall|j: int| #![trigger u[j]]
                        0 <= j < u.len() && el.admits(u[j].1) implies {
                        &&& u[b as int].1.recovery.smoothed_rtt.nanos
                            <= u[j].1.recovery.smoothed_rtt.nanos
                        &&& j < b ==> u[b as int].1.recovery.smoothed_rtt.nanos
                            < u[j].1.recovery.smoothed_rtt.nanos
                    } by {
                        if j < i {
                            assert(t[j] == self.entries@[j]);
                        }
                    }
                    assert(is_first_min(u, el, b as int));
                }
            }
            i += 1;
        }
        proof {
            assert(self.entries@.take(i as int) =~= self.entries@);
            lemma_min_rtt(self@, el);
        }
        match best {
            Some(b) => {
                proof {
                    lemma_min_rtt_is(self@, el, b as int);
                }
                Some(self.entries[b].0)
            },
            None => None,
        }
    }

    /// The sum of the congestion windows of the admitted paths.
    pub fn sum_windows(&self, el: Eligibility) -> (res: u64)
        requires
            total_window(self@, el) <= u64::MAX,
        ensures
            res == total_window(self@, el),
    {
        let mut sum: u64 = 0;
        let mut i: usize = 0;
        assert(self.entries@.take(0) =~= Seq::<(usize, Path)>::empty());
        while i < self.entries.len()
            invariant
                i <= self.entries@.len(),
                sum == total_window(self.entries@.take(i as int), el),
                total_window(self.entries@, el) <= u64::MAX,
            decreases self.entries.len() - i,
        {
            proof {
                lemma_total_window_take(self.entries@, el, i + 1);
                assert(self.entries@.take(i + 1).drop_last() =~= self.entries@.take(i as int));
            }
            if el.check(&self.entries[i].1) {
                sum = sum + self.entries[i].1.recovery.congestion_window;
            }
            i += 1;
        }
        assert(self.entries@.take(i as int) =~= self.entries@);
        sum
    }
}

} // verus!
