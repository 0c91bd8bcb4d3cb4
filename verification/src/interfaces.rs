//! Choosing the network interface whose traffic the monitor reports.
use vstd::prelude::*;
use crate::text::{chars_of, starts_with, slice_equals};

verus! {

/// Counters of one network interface, as the system reports them.
pub struct InterfaceSample {
    pub name: String,
    /// Bytes received since boot.
    pub received_total: u64,
    /// Bytes transmitted since boot.
    pub transmitted_total: u64,
}

/// Loopback and the virtual interfaces of containers and bridges, which the
/// HTTP server leaves out.
pub open spec fn skip_server_interface_spec(name: Seq<char>) -> bool {
    ||| name == "lo"@
    ||| starts_with(name, "docker"@)
    ||| starts_with(name, "veth"@)
    ||| starts_with(name, "br-"@)
}

/// The interfaces the dashboard leaves out: those the HTTP server leaves out,
/// and libvirt bridges.
pub open spec fn skip_interface_spec(name: Seq<char>) -> bool {
    skip_server_interface_spec(name) || starts_with(name, "virbr"@)
}

/// The earliest index holding the largest value of `t`, if that value is positive.
pub open spec fn best_index(t: Seq<nat>) -> Option<int>
    decreases t.len(),
{
    if t.len() == 0 {
        None
    } else {
        let prev = best_index(t.drop_last());
        let best = match prev {
            Some(i) => t[i],
            None => 0,
        };
        if t.last() > best {
            Some(t.len() - 1)
        } else {
            prev
        }
    }
}

/// Traffic the HTTP server counts for sample `s`: none for a left-out interface.
pub open spec fn server_traffic(s: InterfaceSample) -> nat {
    if skip_server_interface_spec(s.name@) {
        0
    } else {
        (s.received_total + s.transmitted_total) as nat
    }
}

/// Traffic the dashboard counts for sample `s`: the sum, saturating at
/// `u64::MAX`, none for a left-out interface.
pub open spec fn traffic(s: InterfaceSample) -> nat {
    if skip_interface_spec(s.name@) {
        0
    } else if s.received_total + s.transmitted_total > u64::MAX {
        u64::MAX as nat
    } else {
        (s.received_total + s.transmitted_total) as nat
    }
}

/// The interface the HTTP server reports: the one with the most traffic,
/// the first of those tied, unless its name is empty.
pub open spec fn server_choice(samples: Seq<InterfaceSample>) -> Option<int> {
    match best_index(samples.map_values(|s: InterfaceSample| server_traffic(s))) {
        Some(i) => if samples[i].name@.len() > 0 {
            Some(i)
        } else {
            None
        },
        None => None,
    }
}

/// The interface the dashboard takes its counters from: the one with the most
/// traffic, the first of those tied.
pub open spec fn primary_choice(samples: Seq<InterfaceSample>) -> Option<int> {
    best_index(samples.map_values(|s: InterfaceSample| traffic(s)))
}

fn prefix_is(v: &Vec<char>, p: &str) -> (b: bool)
    ensures
        b == starts_with(v@, p@),
{
    let w = chars_of(p);
    if w.len() > v.len() {
        return false;
    }
    slice_equals(v, 0, w.len(), p)
}

/// Whether the HTTP server leaves interface `name` out.
pub fn skip_server_interface(name: &str) -> (b: bool)
    ensures
        b == skip_server_interface_spec(name@),
{
    let v = chars_of(name);
    let is_lo = slice_equals(&v, 0, v.len(), "lo");
    assert(v@.subrange(0, v@.len() as int) =~= v@);
    is_lo || prefix_is(&v, "docker") || prefix_is(&v, "veth") || prefix_is(&v, "br-")
}

/// Whether the dashboard leaves interface `name` out.
pub fn skip_interface(name: &str) -> (b: bool)
    ensures
        b == skip_interface_spec(name@),
{
    if skip_server_interface(name) {
        return true;
    }
    let v = chars_of(name);
    prefix_is(&v, "virbr")
}

/// Every positive entry lies at most at the chosen one, the entries before it
/// strictly below; without a choice every entry is zero.
pub proof fn lemma_best_index(t: Seq<nat>)
    ensures
        best_index(t) is None ==> forall|j: int| 0 <= j < t.len() ==> t[j] == 0,
        best_index(t) matches Some(k) ==> {
            &&& 0 <= k < t.len()
            &&& t[k] > 0
            &&& forall|j: int| 0 <= j < t.len() ==> t[j] <= t[k]
            &&& forall|j: int| 0 <= j < k ==> t[j] < t[k]
        },
    decreases t.len(),
{
    if t.len() > 0 {
        let u = t.drop_last();
        lemma_best_index(u);
        assert forall|j: int| 0 <= j < u.len() implies u[j] == t[j] by {}
    }
}

/// The interface with the most traffic is reported, the first of those tied;
/// a left-out interface or one without traffic never is.
pub proof fn law_primary_is_busiest(samples: Seq<InterfaceSample>)
    ensures
        primary_choice(samples) matches Some(k) ==> {
            &&& 0 <= k < samples.len()
            &&& !skip_interface_spec(samples[k].name@)
            &&& traffic(samples[k]) > 0
            &&& forall|j: int| 0 <= j < samples.len() ==> traffic(samples[j]) <= traffic(samples[k])
            &&& forall|j: int| 0 <= j < k ==> traffic(samples[j]) < traffic(samples[k])
        },
        primary_choice(samples) is None ==> forall|j: int|
            0 <= j < samples.len() ==> traffic(samples[j]) == 0,
{
    let t = samples.map_values(|s: InterfaceSample| traffic(s));
    lemma_best_index(t);
    match best_index(t) {
        Some(k) => {
            assert(t[k] == traffic(samples[k]));
            assert forall|j: int| 0 <= j < samples.len() implies traffic(samples[j]) <= traffic(
                samples[k],
            ) by {
                assert(t[j] == traffic(samples[j]));
            }
            assert forall|j: int| 0 <= j < k implies traffic(samples[j]) < traffic(samples[k]) by {
                assert(t[j] == traffic(samples[j]));
            }
        },
        None => {
            assert forall|j: int| 0 <= j < samples.len() implies traffic(samples[j]) == 0 by {
                assert(t[j] == traffic(samples[j]));
            }
        },
    }
}

fn choose_by(totals: &Vec<u64>) -> (r: Option<usize>)
    ensures
        r matches Some(i) ==> i < totals@.len() && best_index(totals@.map_values(|x: u64| x as nat))
            == Some(i as int),
        r is None ==> best_index(totals@.map_values(|x: u64| x as nat)) is None,
{
    let ghost t = totals@.map_values(|x: u64| x as nat);
    let mut best: Option<usize> = None;
    let mut best_total: u64 = 0;
    let mut i: usize = 0;
    assert(t.take(0) =~= Seq::<nat>::empty());
    while i < totals.len()
        invariant
            i <= totals@.len(),
            t == totals@.map_values(|x: u64| x as nat),
            best_index(t.take(i as int)) == (match best {
                Some(b) => Some(b as int),
                None => None::<int>,
            }),
            best matches Some(b) ==> b < i && best_total == totals@[b as int],
            best is None ==> best_total == 0,
        decreases totals.len() - i,
    {
        assert(t.take(i + 1).drop_last() =~= t.take(i as int));
        if totals[i] > best_total {
            best = Some(i);
            best_total = totals[i];
        }
        i = i + 1;
    }
    assert(t.take(totals@.len() as int) =~= t);
    best
}

/// The interface the HTTP server reports on, `None` where no interface
/// carried traffic or the busiest one has no name.
pub fn choose_server_interface(samples: &Vec<InterfaceSample>) -> (r: Option<usize>)
    requires
        forall|j: int|
            0 <= j < samples@.len() && !skip_server_interface_spec(#[trigger] samples@[j].name@)
                ==> samples@[j].received_total + samples@[j].transmitted_total <= u64::MAX,
    ensures
        r matches Some(i) ==> i < samples@.len() && server_choice(samples@) == Some(i as int),
        r is None ==> server_choice(samples@) is None,
{
    let mut totals: Vec<u64> = Vec::new();
    let mut i: usize = 0;
    while i < samples.len()
        invariant
            i <= samples@.len(),
            totals@.len() == i,
            forall|j: int|
                0 <= j < samples@.len() && !skip_server_interface_spec(#[trigger] samples@[j].name@)
                    ==> samples@[j].received_total + samples@[j].transmitted_total <= u64::MAX,
            forall|j: int| 0 <= j < i ==> totals@[j] == server_traffic(#[trigger] samples@[j]),
        decreases samples.len() - i,
    {
        let s = &samples[i];
        let t: u64 = if skip_server_interface(s.name.as_str()) {
            0
        } else {
            s.received_total + s.transmitted_total
        };
        totals.push(t);
        i = i + 1;
    }
    assert(totals@.map_values(|x: u64| x as nat) =~= samples@.map_values(
        |s: InterfaceSample| server_traffic(s),
    ));
    match choose_by(&totals) {
        Some(k) => {
            if chars_of(samples[k].name.as_str()).len() > 0 {
                Some(k)
            } else {
                None
            }
        },
        None => None,
    }
}

/// The interface the dashboard takes its counters from.
pub fn choose_primary_interface(samples: &Vec<InterfaceSample>) -> (r: Option<usize>)
    ensures
        r matches Some(i) ==> i < samples@.len() && primary_choice(samples@) == Some(i as int),
        r is None ==> primary_choice(samples@) is None,
{
    let mut totals: Vec<u64> = Vec::new();
    let mut i: usize = 0;
    while i < samples.len()
        invariant
            i <= samples@.len(),
            totals@.len() == i,
            forall|j: int| 0 <= j < i ==> totals@[j] == traffic(#[trigger] samples@[j]),
        decreases samples.len() - i,
    {
        let s = &samples[i];
        let t: u64 = if skip_interface(s.name.as_str()) {
            0
        } else {
            s.received_total.saturating_add(s.transmitted_total)
        };
        totals.push(t);
        i = i + 1;
    }
    assert(totals@.map_values(|x: u64| x as nat) =~= samples@.map_values(
        |s: InterfaceSample| traffic(s),
    ));
    choose_by(&totals)
}

/// The interface name shown, `None` for an empty name.
pub fn interface_label(name: &str) -> (r: Option<String>)
    ensures
        name@.len() == 0 ==> r is None,
        name@.len() > 0 ==> (r matches Some(s) && s@ == name@),
{
    let v = chars_of(name);
    if v.len() == 0 {
        None
    } else {
        Some(name.to_owned())
    }
}

/// The HTTP server reports the interface with the most traffic, the first
/// of those tied, never a left-out one, one without traffic or one without
/// a name.
pub proof fn law_server_interface_is_busiest(samples: Seq<InterfaceSample>)
    ensures
        server_choice(samples) matches Some(k) ==> {
            &&& 0 <= k < samples.len()
            &&& !skip_server_interface_spec(samples[k].name@)
            &&& samples[k].name@.len() > 0
            &&& server_traffic(samples[k]) > 0
            &&& forall|j: int|
                0 <= j < samples.len() ==> server_traffic(samples[j]) <= server_traffic(samples[k])
            &&& forall|j: int| 0 <= j < k ==> server_traffic(samples[j]) < server_traffic(samples[k])
        },
{
    let t = samples.map_values(|s: InterfaceSample| server_traffic(s));
    lemma_best_index(t);
    match best_index(t) {
        Some(k) => {
            assert(t[k] == server_traffic(samples[k]));
            assert forall|j: int| 0 <= j < samples.len() implies server_traffic(samples[j])
                <= server_traffic(samples[k]) by {
                assert(t[j] == server_traffic(samples[j]));
            }
            assert forall|j: int| 0 <= j < k implies server_traffic(samples[j]) < server_traffic(
                samples[k],
            ) by {
                assert(t[j] == server_traffic(samples[j]));
            }
        },
        None => {},
    }
}

} // verus!
