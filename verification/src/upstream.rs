//! Health bookkeeping for the upstream servers of the proxy: which
//! addresses are currently in rotation, and which have failed.  Addresses
//! leave the rotation when a health check fails against them and rejoin
//! when one succeeds; requests pick a random address still in rotation.

use vstd::prelude::*;

use crate::parse::str_eq;
use rand::Rng;

verus! {

/// One upstream server: its address and whether it is marked failed.
pub struct UpstreamUnit {
    pub address: String,
    pub fail: bool,
}

/// The rotation (`ua`) and the per-server status units (`us`).
pub struct UpstreamStatus {
    ua: Vec<String>,
    us: Vec<UpstreamUnit>,
}

/// The ghost model of the status units: each server's address and failed
/// flag, in order.
pub open spec fn units_view(us: Seq<UpstreamUnit>) -> Seq<(Seq<char>, bool)> {
    Seq::new(us.len(), |i: int| (us[i].address@, us[i].fail))
}

/// `ua` with every occurrence of the address `x` removed, order kept.
pub open spec fn remove_addr(ua: Seq<Seq<char>>, x: Seq<char>) -> Seq<Seq<char>>
    decreases ua.len(),
{
    if ua.len() == 0 {
        ua
    } else {
        let rest = remove_addr(ua.drop_last(), x);
        if ua.last() == x {
            rest
        } else {
            rest.push(ua.last())
        }
    }
}

/// The ghost model of the tracker: the rotation as a sequence of
/// addresses, and the status units.
pub struct UpModel {
    pub ua: Seq<Seq<char>>,
    pub us: Seq<(Seq<char>, bool)>,
}

impl View for UpstreamStatus {
    type V = UpModel;

    closed spec fn view(&self) -> UpModel {
        UpModel { ua: self.ua.deep_view(), us: units_view(self.us@) }
    }
}

/// Whether some address of `v` reads as `s`.
fn contains_str(v: &Vec<String>, s: &String) -> (r: bool)
    ensures
        r == v.deep_view().contains(s@),
{
    let n = v.len();
    for i in 0..n
        invariant
            n == v@.len(),
            forall|j: int| 0 <= j < i ==> v.deep_view()[j] != s@,
    {
        if str_eq(v[i].as_str(), s.as_str()) {
            proof {
                assert(v.deep_view()[i as int] == s@);
            }
            return true;
        }
    }
    proof {
        if v.deep_view().contains(s@) {
            let k = choose|k: int| 0 <= k < v.deep_view().len() && v.deep_view()[k] == s@;
        }
    }
    false
}

impl UpstreamStatus {
    pub fn new(ua: Vec<String>, us: Vec<UpstreamUnit>) -> (r: UpstreamStatus)
        ensures
            r@.ua == ua.deep_view(),
            r@.us == units_view(us@),
    {
        UpstreamStatus { ua, us }
    }

    /// Picks an upstream address uniformly at random from the rotation.
    pub fn select_random_updastream(&self) -> (r: Option<String>)
        requires
            self@.ua.len() > 0,
        ensures
            r is Some,
            r matches Some(s) ==> self@.ua.contains(s@),
    {
        let idx = random_below(self.ua.len());
        let s = self.ua[idx].clone();
        proof {
            assert(self@.ua[idx as int] == s@);
        }
        Some(s)
    }

    /// Notes a successful health check against `us`: an address not in
    /// rotation rejoins it and its unit is marked healthy; an address
    /// already in rotation is left entirely as it is.
    pub fn noti_succ(&mut self, us: &String)
        ensures
            old(self)@.ua.contains(us@) ==> final(self)@ == old(self)@,
            !old(self)@.ua.contains(us@) ==> {
                &&& final(self)@.ua == old(self)@.ua.push(us@)
                &&& final(self)@.us.len() == old(self)@.us.len()
                &&& forall|i: int|
                    0 <= i < old(self)@.us.len() ==> #[trigger] final(self)@.us[i] == (
                    old(self)@.us[i].0,
                    if old(self)@.us[i].0 == us@ {
                        false
                    } else {
                        old(self)@.us[i].1
                    },
                )
            },
    {
        if contains_str(&self.ua, us) {
            return ;
        }
        self.ua.push(us.clone());
        proof {
            assert(self@.ua =~= old(self)@.ua.push(us@));
        }
        let n = self.us.len();
        for i in 0..n
            invariant
                n == self@.us.len(),
                n == old(self)@.us.len(),
                self@.ua == old(self)@.ua.push(us@),
                forall|j: int|
                    i <= j < n ==> #[trigger] self@.us[j] == old(self)@.us[j],
                forall|j: int|
                    0 <= j < i ==> #[trigger] self@.us[j] == (
                    old(self)@.us[j].0,
                    if old(self)@.us[j].0 == us@ {
                        false
                    } else {
                        old(self)@.us[j].1
                    },
                ),
        {
            let ghost pre = self@.us;
            if str_eq(self.us[i].address.as_str(), us.as_str()) {
                let addr = self.us[i].address.clone();
                self.us.set(i, UpstreamUnit { address: addr, fail: false });
            }
            proof {
                assert forall|j: int| 0 <= j < n implies #[trigger] self@.us[j] == (
                    if j == i as int && pre[j].0 == us@ {
                        (pre[j].0, false)
                    } else {
                        pre[j]
                    }) by {
                    // mentions pre[j] so the solver connects the snapshots
                    assert(pre[j].0 == pre[j].0);
                }
            }
        }
    }

    /// Notes a failed health check against `us`: an address in rotation
    /// leaves it (every occurrence) and its unit is marked failed; an
    /// address not in rotation leaves everything as it is.
    pub fn noti_fail(&mut self, us: &String)
        ensures
            !old(self)@.ua.contains(us@) ==> final(self)@ == old(self)@,
            old(self)@.ua.contains(us@) ==> {
                &&& final(self)@.ua == remove_addr(old(self)@.ua, us@)
                &&& final(self)@.us.len() == old(self)@.us.len()
                &&& forall|i: int|
                    0 <= i < old(self)@.us.len() ==> #[trigger] final(self)@.us[i] == (
                    old(self)@.us[i].0,
                    if old(self)@.us[i].0 == us@ {
                        true
                    } else {
                        old(self)@.us[i].1
                    },
                )
            },
    {
        if !contains_str(&self.ua, us) {
            return ;
        }
        let n = self.ua.len();
        let mut kept: Vec<String> = Vec::new();
        for i in 0..n
            invariant
                n == self.ua@.len(),
                self@ == old(self)@,
                kept.deep_view() == remove_addr(old(self)@.ua.subrange(0, i as int), us@),
        {
            proof {
                assert(old(self)@.ua.subrange(0, i + 1).drop_last() =~= old(self)@.ua.subrange(
                    0,
                    i as int,
                ));
                assert(old(self)@.ua.subrange(0, i + 1).last() == old(self)@.ua[i as int]);
            }
            if !str_eq(self.ua[i].as_str(), us.as_str()) {
                kept.push(self.ua[i].clone());
                proof {
                    assert(kept.deep_view() =~= remove_addr(
                        old(self)@.ua.subrange(0, i + 1),
                        us@,
                    ));
                }
            } else {
                proof {
                    assert(kept.deep_view() =~= remove_addr(
                        old(self)@.ua.subrange(0, i + 1),
                        us@,
                    ));
                }
            }
        }
        self.ua = kept;
        proof {
            assert(old(self)@.ua.subrange(0, n as int) =~= old(self)@.ua);
        }
        let m = self.us.len();
        for i in 0..m
            invariant
                m == self@.us.len(),
                m == old(self)@.us.len(),
                self@.ua == remove_addr(old(self)@.ua, us@),
                forall|j: int|
                    i <= j < m ==> #[trigger] self@.us[j] == old(self)@.us[j],
                forall|j: int|
                    0 <= j < i ==> #[trigger] self@.us[j] == (
                    old(self)@.us[j].0,
                    if old(self)@.us[j].0 == us@ {
                        true
                    } else {
                        old(self)@.us[j].1
                    },
                ),
        {
            let ghost pre = self@.us;
            if str_eq(self.us[i].address.as_str(), us.as_str()) {
                let addr = self.us[i].address.clone();
                self.us.set(i, UpstreamUnit { address: addr, fail: true });
            }
            proof {
                assert forall|j: int| 0 <= j < m implies #[trigger] self@.us[j] == (
                    if j == i as int && pre[j].0 == us@ {
                        (pre[j].0, true)
                    } else {
                        pre[j]
                    }) by {
                    // mentions pre[j] so the solver connects the snapshots
                    assert(pre[j].0 == pre[j].0);
                }
            }
        }
    }

    /// The addresses currently in rotation.
    pub fn get_up_addrs(&self) -> (r: Vec<String>)
        ensures
            r.deep_view() == self@.ua,
    {
        let n = self.ua.len();
        let mut out: Vec<String> = Vec::new();
        for i in 0..n
            invariant
                n == self.ua@.len(),
                out.deep_view() == self@.ua.subrange(0, i as int),
        {
            let ghost pre = out.deep_view();
            out.push(self.ua[i].clone());
            proof {
                assert(pre.len() == i);
                assert(out@.len() == i + 1);
                assert forall|j: int| 0 <= j <= i implies out.deep_view()[j] == self@.ua.subrange(
                    0,
                    i + 1,
                )[j] by {
                    if j < i {
                        assert(pre[j] == self@.ua.subrange(0, i as int)[j]);
                    }
                }
                assert(out.deep_view() =~= self@.ua.subrange(0, i + 1));
            }
        }
        proof {
            assert(self@.ua.subrange(0, n as int) =~= self@.ua);
        }
        out
    }
}

/// Relies on `rand::thread_rng` and `rand::Rng::gen_range`: a uniformly
/// random index below `n`, from the thread-local generator.
#[verifier::external_body]
fn random_below(n: usize) -> (r: usize)
    requires
        n > 0,
    ensures
        r < n,
{
    rand::thread_rng().gen_range(0, n)
}

} // verus!
