//! Picking the peers to dial and the peers to advertise.

use vstd::prelude::*;
use crate::address::IpAddr;
use crate::config::NetworkConfig;
use crate::model::{dial_eligible, dial_class, advertisable_class, ips_of, DatabaseView};
use crate::peer::PeerInfo;
use crate::ranking::{PeerOrder, sort_peers, sorted_by};
use crate::seq_facts::{select, truncated, lemma_select_empty, lemma_select_step};

verus! {

/// Whether a peer may be dialed at `now`, see [`dial_eligible`].
pub fn may_be_dialed(now: u64, wakeup_interval: u64, p: &PeerInfo) -> (eligible: bool)
    ensures
        eligible == dial_eligible(now, wakeup_interval, *p),
{
    match p.last_failure {
        None => true,
        Some(failed) => {
            let alive_since = match p.last_alive {
                Some(alive) => alive > failed,
                None => false,
            };
            alive_since || (now > failed && now - failed > wakeup_interval)
        },
    }
}

/// The addresses of the records, in their order.
pub fn addresses_of(peers: &Vec<PeerInfo>) -> (ips: Vec<IpAddr>)
    ensures
        ips@ == ips_of(peers@),
{
    let n = peers.len();
    let mut ips: Vec<IpAddr> = Vec::new();
    let mut i: usize = 0;
    while i < n
        invariant
            n == peers.len(),
            i <= n,
            ips@ == ips_of(peers@.take(i as int)),
        decreases n - i,
    {
        ips.push(peers[i].ip);
        assert(ips@ == ips_of(peers@.take(i + 1)));
        i += 1;
    }
    assert(peers@.take(n as int) == peers@);
    ips
}

/// The addresses to dial at `now`, no more than `slots` of them: those of
/// the candidates that failed longest ago.
pub fn dial_candidates(
    peers: &Vec<PeerInfo>,
    now: u64,
    wakeup_interval: u64,
    slots: usize,
) -> (ips: Vec<IpAddr>)
    ensures
        ips@ == ips_of(
            truncated(
                sorted_by(
                    select(peers@, dial_class(now, wakeup_interval)),
                    PeerOrder::LeastRecentlyFailed,
                ),
                slots as nat,
            ),
        ),
{
    let n = peers.len();
    let mut picked: Vec<PeerInfo> = Vec::new();
    let mut i: usize = 0;
    proof {
        lemma_select_empty(dial_class(now, wakeup_interval));
        assert(peers@.take(0) == Seq::<PeerInfo>::empty());
    }
    while i < n
        invariant
            n == peers.len(),
            i <= n,
            picked@ == select(peers@.take(i as int), dial_class(now, wakeup_interval)),
        decreases n - i,
    {
        let p = peers[i];
        proof {
            lemma_select_step(peers@, dial_class(now, wakeup_interval), i as int);
        }
        if p.advertised && !p.banned && !p.is_active() && may_be_dialed(now, wakeup_interval, &p) {
            picked.push(p);
        }
        i += 1;
    }
    assert(peers@.take(n as int) == peers@);
    sort_peers(&mut picked, PeerOrder::LeastRecentlyFailed);
    picked.truncate(slots);
    addresses_of(&picked)
}

/// The addresses to advertise to other peers, see
/// [`DatabaseView::advertisable_peer_ips`].
pub fn advertisable_ips(cfg: &NetworkConfig, peers: &Vec<PeerInfo>) -> (ips: Vec<IpAddr>)
    ensures
        ips@ == ({
            let listed = ips_of(
                truncated(
                    sorted_by(select(peers@, advertisable_class()), PeerOrder::MostRecentlyAlive),
                    cfg.max_advertise_length as nat,
                ),
            );
            match cfg.routable_ip {
                Some(own) => truncated(seq![own] + listed, cfg.max_advertise_length as nat),
                None => listed,
            }
        }),
{
    let n = peers.len();
    let mut picked: Vec<PeerInfo> = Vec::new();
    let mut i: usize = 0;
    proof {
        lemma_select_empty(advertisable_class());
        assert(peers@.take(0) == Seq::<PeerInfo>::empty());
    }
    while i < n
        invariant
            n == peers.len(),
            i <= n,
            picked@ == select(peers@.take(i as int), advertisable_class()),
        decreases n - i,
    {
        let p = peers[i];
        proof {
            lemma_select_step(peers@, advertisable_class(), i as int);
        }
        if p.advertised && !p.banned {
            picked.push(p);
        }
        i += 1;
    }
    assert(peers@.take(n as int) == peers@);
    sort_peers(&mut picked, PeerOrder::MostRecentlyAlive);
    picked.truncate(cfg.max_advertise_length);
    let mut ips = addresses_of(&picked);
    match cfg.routable_ip {
        Some(own) => {
            let ghost listed = ips@;
            ips.insert(0, own);
            assert(ips@ == seq![own] + listed);
            ips.truncate(cfg.max_advertise_length);
        },
        None => {},
    }
    ips
}

} // verus!
