//! Per-client rate limiting for the proxy: how many requests each client
//! address has made in the current minute window, and whether one more is
//! allowed.  Time enters as a plain seconds count, handed in by whoever
//! reads the clock.

use vstd::prelude::*;

use crate::parse::str_eq;

verus! {

/// One client's counters: its address, how many requests it has made in
/// the current window, and when the window started (in seconds).
pub struct Client {
    pub ip: String,
    pub times: u64,
    pub last_modify_time: u64,
}

/// The ghost model of a client table: each client's address, request
/// count, and window start, in order.
pub open spec fn clients_view(cs: Seq<Client>) -> Seq<(Seq<char>, u64, u64)> {
    Seq::new(cs.len(), |i: int| (cs[i].ip@, cs[i].times, cs[i].last_modify_time))
}

/// Whether one more request by `c` is allowed now, updating its counters.
/// No limit (`max_request == 0`) always allows; a window older than a
/// minute restarts the count at one; inside the window the count grows
/// while it is below the limit; at the limit the request is refused and
/// nothing changes.
pub fn available_calc(c: &mut Client, max_request: usize, now: u64) -> (r: bool)
    requires
        old(c).last_modify_time <= now,
    ensures
        final(c).ip == old(c).ip,
        max_request == 0 ==> r && *final(c) == *old(c),
        max_request > 0 && now - old(c).last_modify_time > 60 ==> r && final(c).times == 1
            && final(c).last_modify_time == now,
        max_request > 0 && now - old(c).last_modify_time <= 60 && old(c).times < max_request
            ==> r && final(c).times == old(c).times + 1 && final(c).last_modify_time == old(
            c,
        ).last_modify_time,
        max_request > 0 && now - old(c).last_modify_time <= 60 && old(c).times >= max_request
            ==> !r && *final(c) == *old(c),
{
    if max_request == 0 {
        return true;
    }
    if now - c.last_modify_time > 60 {
        c.last_modify_time = now;
        c.times = 1;
        return true;
    }
    if c.times < max_request as u64 {
        c.times = c.times + 1;
        return true;
    }
    false
}

/// The index of the entry for `ip`, if one exists.
fn find_ip(store: &Vec<Client>, ip: &String) -> (r: Option<usize>)
    ensures
        r matches Some(i) ==> i < store@.len() && clients_view(store@)[i as int].0 == ip@,
        r is None ==> forall|j: int|
            0 <= j < store@.len() ==> (#[trigger] clients_view(store@)[j]).0 != ip@,
{
    let n = store.len();
    for i in 0..n
        invariant
            n == store@.len(),
            forall|j: int| 0 <= j < i ==> (#[trigger] clients_view(store@)[j]).0 != ip@,
    {
        if str_eq(store[i].ip.as_str(), ip.as_str()) {
            proof {
                assert(clients_view(store@)[i as int].0 == ip@);
            }
            return Some(i);
        }
    }
    None
}

/// The session-level table of client counters, one entry per address.
pub struct ClientTable {
    store: Vec<Client>,
}

impl View for ClientTable {
    type V = Seq<(Seq<char>, u64, u64)>;

    closed spec fn view(&self) -> Seq<(Seq<char>, u64, u64)> {
        clients_view(self.store@)
    }
}

impl ClientTable {
    /// No two entries share an address.
    pub open spec fn wf(&self) -> bool {
        forall|i: int, j: int| 0 <= i < j < self@.len() ==> self@[i].0 != self@[j].0
    }

    /// Every window start lies at or before `now`.
    pub open spec fn times_bounded(&self, now: u64) -> bool {
        forall|i: int| 0 <= i < self@.len() ==> (#[trigger] self@[i]).2 <= now
    }

    pub fn new() -> (r: ClientTable)
        ensures
            r@ == Seq::<(Seq<char>, u64, u64)>::empty(),
            r.wf(),
    {
        ClientTable { store: Vec::new() }
    }

    /// Notes one request from `ip` now, and says whether it is allowed.
    /// A first-time client is recorded with one request in a fresh window
    /// and allowed; a known client is judged and updated by
    /// `available_calc`.
    pub fn note_request(&mut self, ip: &String, now: u64, max_request: usize) -> (r: bool)
        requires
            old(self).wf(),
            old(self).times_bounded(now),
        ensures
            final(self).wf(),
            final(self).times_bounded(now),
            (forall|j: int| 0 <= j < old(self)@.len() ==> (#[trigger] old(self)@[j]).0 != ip@)
                ==> r && final(self)@ == old(self)@.push((ip@, 1u64, now)),
            forall|j: int|
                0 <= j < old(self)@.len() && (#[trigger] old(self)@[j]).0 == ip@ ==> {
                    &&& final(self)@.len() == old(self)@.len()
                    &&& (forall|k: int|
                        0 <= k < old(self)@.len() && k != j ==> #[trigger] final(self)@[k] == old(
                            self,
                        )@[k])
                    &&& final(self)@[j].0 == ip@
                    &&& (max_request == 0 ==> r && final(self)@[j] == old(self)@[j])
                    &&& (max_request > 0 && now - old(self)@[j].2 > 60 ==> r && final(self)@[j]
                        == (ip@, 1u64, now))
                    &&& (max_request > 0 && now - old(self)@[j].2 <= 60 && old(self)@[j].1
                        < max_request ==> r && final(self)@[j] == (
                        ip@,
                        (old(self)@[j].1 + 1) as u64,
                        old(self)@[j].2,
                    ))
                    &&& (max_request > 0 && now - old(self)@[j].2 <= 60 && old(self)@[j].1
                        >= max_request ==> !r && final(self)@[j] == old(self)@[j])
                },
    {
        let found = find_ip(&self.store, ip);
        match found {
            None => {
                let ghost pre = self@;
                self.store.push(Client { ip: ip.clone(), times: 1, last_modify_time: now });
                proof {
                    assert(self@ =~= pre.push((ip@, 1u64, now)));
                }
                true
            },
            Some(i) => {
                let ghost pre = self@;
                let mut c = Client {
                    ip: self.store[i].ip.clone(),
                    times: self.store[i].times,
                    last_modify_time: self.store[i].last_modify_time,
                };
                let r = available_calc(&mut c, max_request, now);
                self.store.set(i, c);
                proof {
                    assert forall|k: int| 0 <= k < pre.len() && k != i implies #[trigger] self@[k]
                        == pre[k] by {
                        // mentions pre[k] so the solver connects the snapshots
                        assert(pre[k].0 == pre[k].0);
                    }
                    assert(self@[i as int].0 == pre[i as int].0);
                    assert forall|j: int|
                        0 <= j < pre.len() && (#[trigger] pre[j]).0 == ip@ implies j == i as int by {
                        if j < i as int {
                            assert(pre[j].0 != pre[i as int].0);
                        } else if j > i as int {
                            assert(pre[i as int].0 != pre[j].0);
                        }
                    }
                }
                r
            },
        }
    }
}

} // verus!
