//! What the searches over the paths find.

use vstd::prelude::*;

use crate::path::{
    distinct_ids, is_first_min, lemma_lookup, lemma_min_rtt, lemma_min_rtt_is, lookup, min_rtt,
    total_window, Eligibility, Error, Path,
};
use crate::scheduler_minrtt::minrtt_choice;

verus! {

/// Only active paths take part in any search. Beyond that, one asks for a
/// connection ID, one for a validated peer address, one for leave to send, and
/// one for both of the latter.
pub proof fn lemma_admits(path: Path)
    ensures
        Eligibility::Addressable.admits(path) <==> path.active && path.dcid_seq is Some,
        Eligibility::Validated.admits(path) <==> path.active && path.validated,
        Eligibility::Ready.admits(path) <==> path.active && path.recovery.can_send,
        Eligibility::Available.admits(path) <==> path.active && path.validated
            && path.recovery.can_send,
{
}

/// A search finds an ID exactly where some path is admitted, and then it is that
/// of an admitted path such that every admitted path takes at least as long, and
/// every earlier one longer.
pub proof fn lemma_search(s: Seq<(usize, Path)>, el: Eligibility)
    ensures
        min_rtt(s, el) is None <==> forall|j: int|
            0 <= j < s.len() ==> !el.admits((#[trigger] s[j]).1),
        min_rtt(s, el) matches Some(pid) ==> exists|i: int|
            #![trigger s[i]]
            0 <= i < s.len() && s[i].0 == pid && el.admits(s[i].1) && forall|j: int|
                #![trigger s[j]]
                0 <= j < s.len() && el.admits(s[j].1) ==> {
                    &&& s[i].1.recovery.smoothed_rtt.nanos <= s[j].1.recovery.smoothed_rtt.nanos
                    &&& j < i ==> s[i].1.recovery.smoothed_rtt.nanos
                        < s[j].1.recovery.smoothed_rtt.nanos
                },
{
    let i = lemma_min_rtt(s, el);
    if min_rtt(s, el) is Some {
        assert(s[i].0 == min_rtt(s, el)->0);
    }
}

/// The first of the admitted paths with the lowest round-trip time is the one
/// that a search finds.
pub proof fn lemma_search_finds(s: Seq<(usize, Path)>, el: Eligibility, i: int)
    requires
        0 <= i < s.len(),
        el.admits(s[i].1),
        forall|j: int|
            #![trigger s[j]]
            0 <= j < s.len() && el.admits(s[j].1) ==> {
                &&& s[i].1.recovery.smoothed_rtt.nanos <= s[j].1.recovery.smoothed_rtt.nanos
                &&& j < i ==> s[i].1.recovery.smoothed_rtt.nanos
                    < s[j].1.recovery.smoothed_rtt.nanos
            },
    ensures
        min_rtt(s, el) == Some(s[i].0),
        is_first_min(s, el, i),
{
    assert(is_first_min(s, el, i));
    lemma_min_rtt_is(s, el, i);
}

/// Where no ID names two paths, looking up an ID gives the path that stands with
/// it, and nothing where none does.
pub proof fn lemma_lookup_finds(s: Seq<(usize, Path)>, pid: usize)
    requires
        forall|i: int, j: int|
            0 <= i < j < s.len() ==> (#[trigger] s[i]).0 != (#[trigger] s[j]).0,
    ensures
        lookup(s, pid) is None <==> forall|i: int| 0 <= i < s.len() ==> (#[trigger] s[i]).0 != pid,
        forall|i: int|
            0 <= i < s.len() && (#[trigger] s[i]).0 == pid ==> lookup(s, pid) == Some(s[i].1),
{
    lemma_distinct_ids(s);
    assert forall|i: int| 0 <= i < s.len() && (#[trigger] s[i]).0 == pid implies lookup(s, pid)
        == Some(s[i].1) by {
        lemma_lookup(s, i);
    }
}

/// The IDs are distinct exactly where any two entries have different ones.
pub proof fn lemma_distinct_ids(s: Seq<(usize, Path)>)
    ensures
        distinct_ids(s) <==> forall|i: int, j: int|
            0 <= i < j < s.len() ==> (#[trigger] s[i]).0 != (#[trigger] s[j]).0,
{
}

/// No paths have no window, and each further path adds its congestion window to
/// the total where it is admitted, and nothing where it is not.
pub proof fn lemma_total_window_grows(s: Seq<(usize, Path)>, el: Eligibility, e: (usize, Path))
    ensures
        total_window(Seq::<(usize, Path)>::empty(), el) == 0,
        el.admits(e.1) ==> total_window(s.push(e), el) == total_window(s, el)
            + e.1.recovery.congestion_window,
        !el.admits(e.1) ==> total_window(s.push(e), el) == total_window(s, el),
{
    assert(s.push(e).drop_last() =~= s);
}

/// Lowest round-trip time first: the answer is the first of the active paths
/// that can send which no other such path outruns, and `Done` where there is no
/// such path.
pub proof fn lemma_minrtt_answer(s: Seq<(usize, Path)>)
    ensures
        minrtt_choice(s) is Err <==> forall|j: int|
            0 <= j < s.len() ==> !((#[trigger] s[j]).1.active && s[j].1.recovery.can_send),
        match minrtt_choice(s) {
            Err(e) => e == Error::Done,
            Ok(pid) => exists|i: int|
                #![trigger s[i]]
                0 <= i < s.len() && s[i].0 == pid && s[i].1.active && s[i].1.recovery.can_send
                    && forall|j: int|
                    #![trigger s[j]]
                    0 <= j < s.len() && s[j].1.active && s[j].1.recovery.can_send ==> {
                        &&& s[i].1.recovery.smoothed_rtt.nanos
                            <= s[j].1.recovery.smoothed_rtt.nanos
                        &&& j < i ==> s[i].1.recovery.smoothed_rtt.nanos
                            < s[j].1.recovery.smoothed_rtt.nanos
                    },
        },
{
    let i = lemma_min_rtt(s, Eligibility::Ready);
    if min_rtt(s, Eligibility::Ready) is Some {
        assert(s[i].0 == minrtt_choice(s)->Ok_0);
    }
}

} // verus!
