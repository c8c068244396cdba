//! What holds of a directory after cleanup.

use vstd::prelude::*;
use crate::address::IpAddr;
use crate::config::NetworkConfig;
use crate::peer::{
    PeerInfo, Counter, total, has_ip, unique_ips, lemma_total_concat, lemma_total_zero,
    lemma_total_select, lemma_total_pointwise,
};
use crate::ranking::{
    PeerOrder, sorted_by, is_sorted, comes_before, ranked_alike, lemma_sorted_by_contains,
    lemma_sorted_by_is_sorted, lemma_sorted_truncated_fixes, lemma_truncated_is_sorted,
    lemma_sorted_by_keeps_order, lemma_sorted_by_permutes,
};
use crate::seq_facts::{
    select, truncated, lemma_truncated_members, lemma_select_members,
    lemma_select_leaves_first, lemma_select_leaves_second, lemma_select_leaves_third,
};
use crate::distinct::{
    lemma_same_ip_same_record, lemma_member_has_ip, lemma_unique_select, lemma_unique_sorted,
    lemma_unique_truncated, lemma_unique_concat, lemma_select_no_repeats,
};
use crate::cleanup::{
    first_occurrences, is_kept, is_banned_idle, is_idle, kept_class, banned_class, idle_class,
    with_advertised, is_new_candidate, candidate_class, new_candidates, fresh_records,
    retained_banned, retained_idle, cleaned,
};

verus! {

/// The first occurrences hold every address of the list, and none twice.
pub proof fn lemma_first_occurrences(ips: Seq<IpAddr>)
    ensures
        first_occurrences(ips).no_duplicates(),
        forall|ip: IpAddr|
            #![trigger first_occurrences(ips).contains(ip)]
            #![trigger ips.contains(ip)]
            first_occurrences(ips).contains(ip) <==> ips.contains(ip),
    decreases ips.len(),
{
    if ips.len() > 0 {
        let front = ips.drop_last();
        let last = ips.last();
        let listed = first_occurrences(front);
        lemma_first_occurrences(front);
        assert forall|ip: IpAddr|
            #![trigger first_occurrences(ips).contains(ip)]
            #![trigger ips.contains(ip)]
            first_occurrences(ips).contains(ip) <==> ips.contains(ip) by {
            if first_occurrences(ips).contains(ip) {
                let k = choose|k: int|
                    0 <= k < first_occurrences(ips).len() && first_occurrences(ips)[k] == ip;
                if k < listed.len() {
                    assert(listed[k] == ip);
                    assert(listed.contains(ip));
                    let j = choose|j: int| 0 <= j < front.len() && front[j] == ip;
                    assert(ips[j] == ip);
                } else {
                    assert(ips[ips.len() - 1] == ip);
                }
            }
            if ips.contains(ip) {
                let j = choose|j: int| 0 <= j < ips.len() && ips[j] == ip;
                if j < front.len() {
                    assert(front[j] == ip);
                    assert(front.contains(ip));
                    assert(listed.contains(ip));
                    let k = choose|k: int| 0 <= k < listed.len() && listed[k] == ip;
                    assert(first_occurrences(ips)[k] == ip);
                } else if listed.contains(last) {
                } else {
                    assert(first_occurrences(ips)[listed.len() as int] == ip);
                }
            }
        }
    }
}

/// The records of the new peers: each is idle, has an address that the
/// configuration admits and that the directory does not hold, and no two
/// share an address.
pub proof fn lemma_fresh_records(cfg: NetworkConfig, peers: Seq<PeerInfo>, ips: Seq<IpAddr>)
    ensures
        fresh_records(new_candidates(cfg, peers, ips)).len() <= cfg.max_advertise_length,
        unique_ips(fresh_records(new_candidates(cfg, peers, ips))),
        forall|j: int|
            0 <= j < fresh_records(new_candidates(cfg, peers, ips)).len() ==> {
                let p = #[trigger] fresh_records(new_candidates(cfg, peers, ips))[j];
                &&& p == PeerInfo::unconnected_spec(p.ip, true)
                &&& is_idle(cfg, p)
                &&& !has_ip(peers, p.ip)
                &&& ips.contains(p.ip)
            },
{
    let listed = first_occurrences(ips);
    let offered = select(listed, candidate_class(cfg, peers));
    let taken = new_candidates(cfg, peers, ips);
    let fresh = fresh_records(taken);
    lemma_first_occurrences(ips);
    lemma_select_no_repeats(listed, candidate_class(cfg, peers));
    lemma_select_members(listed, candidate_class(cfg, peers));
    lemma_truncated_members(offered, cfg.max_advertise_length as nat);
    assert forall|j: int| 0 <= j < fresh.len() implies {
        let p = #[trigger] fresh[j];
        &&& p == PeerInfo::unconnected_spec(p.ip, true)
        &&& is_idle(cfg, p)
        &&& !has_ip(peers, p.ip)
        &&& ips.contains(p.ip)
    } by {
        assert(taken[j] == offered[j]);
        assert(offered.contains(offered[j]));
        assert(listed.contains(taken[j]) && candidate_class(cfg, peers)(taken[j]));
    }
    assert forall|i: int, j: int|
        0 <= i < fresh.len() && 0 <= j < fresh.len() && i != j implies (#[trigger] fresh[i]).ip != (
    #[trigger] fresh[j]).ip by {
        assert(taken[i] == offered[i] && taken[j] == offered[j]);
    }
}

/// Marking records as advertised changes neither their number, nor their
/// addresses, nor anything but the flag.
pub proof fn lemma_with_advertised(peers: Seq<PeerInfo>, ips: Seq<IpAddr>)
    ensures
        with_advertised(peers, ips).len() == peers.len(),
        forall|i: int|
            0 <= i < peers.len() ==> (#[trigger] with_advertised(peers, ips)[i]) == (PeerInfo {
                advertised: peers[i].advertised || ips.contains(peers[i].ip),
                ..peers[i]
            }),
        unique_ips(peers) ==> unique_ips(with_advertised(peers, ips)),
        forall|ip: IpAddr| has_ip(with_advertised(peers, ips), ip) <==> has_ip(peers, ip),
        forall|c: Counter| total(with_advertised(peers, ips), c) == total(peers, c),
{
    let marked = with_advertised(peers, ips);
    assert forall|ip: IpAddr| has_ip(marked, ip) <==> has_ip(peers, ip) by {
        if has_ip(marked, ip) {
            let i = choose|i: int| 0 <= i < marked.len() && (#[trigger] marked[i]).ip == ip;
            assert(peers[i].ip == ip);
        }
        if has_ip(peers, ip) {
            let i = choose|i: int| 0 <= i < peers.len() && (#[trigger] peers[i]).ip == ip;
            assert(marked[i].ip == ip);
        }
    }
    assert forall|c: Counter| total(marked, c) == total(peers, c) by {
        lemma_total_pointwise(marked, peers, c);
    }
    if unique_ips(peers) {
        assert forall|i: int, j: int|
            0 <= i < marked.len() && 0 <= j < marked.len() && i != j implies (
        #[trigger] marked[i]).ip != (#[trigger] marked[j]).ip by {
            assert(peers[i].ip != peers[j].ip);
        }
    }
}

/// The kept part of a cleaned directory: records of the marked directory that
/// are kept.
pub proof fn lemma_kept_part(cfg: NetworkConfig, marked: Seq<PeerInfo>)
    ensures
        forall|i: int|
            0 <= i < select(marked, kept_class(cfg)).len() ==> {
                let x = #[trigger] select(marked, kept_class(cfg))[i];
                is_kept(cfg, x) && marked.contains(x)
            },
{
    let kept = select(marked, kept_class(cfg));
    lemma_select_members(marked, kept_class(cfg));
    assert forall|i: int| 0 <= i < kept.len() implies is_kept(cfg, #[trigger] kept[i])
        && marked.contains(kept[i]) by {
        assert(kept.contains(kept[i]));
    }
}

/// The banned part of a cleaned directory: no more than `max_banned_peers`
/// records of the marked directory that are banned and without connections,
/// sorted.
pub proof fn lemma_banned_part(cfg: NetworkConfig, marked: Seq<PeerInfo>)
    ensures
        retained_banned(cfg, marked).len() <= cfg.max_banned_peers,
        is_sorted(retained_banned(cfg, marked), PeerOrder::MostRecentlyFailed),
        forall|i: int|
            0 <= i < retained_banned(cfg, marked).len() ==> {
                let x = #[trigger] retained_banned(cfg, marked)[i];
                is_banned_idle(cfg, x) && marked.contains(x)
            },
{
    let order = PeerOrder::MostRecentlyFailed;
    let all = select(marked, banned_class(cfg));
    let sorted = sorted_by(all, order);
    let banned = retained_banned(cfg, marked);
    lemma_select_members(marked, banned_class(cfg));
    lemma_sorted_by_contains(all, order);
    lemma_sorted_by_is_sorted(all, order);
    lemma_truncated_members(sorted, cfg.max_banned_peers as nat);
    lemma_truncated_is_sorted(sorted, order, cfg.max_banned_peers as nat);
    assert forall|i: int| 0 <= i < banned.len() implies is_banned_idle(cfg, #[trigger] banned[i])
        && marked.contains(banned[i]) by {
        assert(banned.contains(banned[i]));
        assert(sorted.contains(banned[i]));
        assert(all.contains(banned[i]));
    }
}

/// The idle part of a cleaned directory: no more than `max_idle_peers`
/// records that are idle, each of the marked directory or among the `fresh`
/// ones, sorted.
pub proof fn lemma_idle_part(cfg: NetworkConfig, marked: Seq<PeerInfo>, fresh: Seq<PeerInfo>)
    requires
        forall|j: int| 0 <= j < fresh.len() ==> is_idle(cfg, #[trigger] fresh[j]),
    ensures
        retained_idle(cfg, marked, fresh).len() <= cfg.max_idle_peers,
        is_sorted(retained_idle(cfg, marked, fresh), PeerOrder::MostRecentlyAlive),
        forall|i: int|
            0 <= i < retained_idle(cfg, marked, fresh).len() ==> {
                let x = #[trigger] retained_idle(cfg, marked, fresh)[i];
                is_idle(cfg, x) && (marked.contains(x) || fresh.contains(x))
            },
{
    let order = PeerOrder::MostRecentlyAlive;
    let known = select(marked, idle_class(cfg));
    let all = known + fresh;
    let sorted = sorted_by(all, order);
    let idle = retained_idle(cfg, marked, fresh);
    lemma_select_members(marked, idle_class(cfg));
    lemma_sorted_by_contains(all, order);
    lemma_sorted_by_is_sorted(all, order);
    lemma_truncated_members(sorted, cfg.max_idle_peers as nat);
    lemma_truncated_is_sorted(sorted, order, cfg.max_idle_peers as nat);
    assert forall|i: int| 0 <= i < idle.len() implies is_idle(cfg, #[trigger] idle[i]) && (
    marked.contains(idle[i]) || fresh.contains(idle[i])) by {
        let x = idle[i];
        assert(idle.contains(x));
        assert(sorted.contains(x));
        assert(all.contains(x));
        let k = choose|k: int| 0 <= k < all.len() && all[k] == x;
        if k < known.len() {
            assert(known[k] == x);
            assert(known.contains(x));
        } else {
            assert(fresh[k - known.len()] == x);
        }
    }
}

/// The three parts that cleanup joins: what each holds, how long it is, and
/// that the two bounded parts are sorted.
pub proof fn lemma_parts(cfg: NetworkConfig, peers: Seq<PeerInfo>, ips: Seq<IpAddr>)
    ensures
        ({
            let marked = with_advertised(peers, ips);
            let fresh = fresh_records(new_candidates(cfg, peers, ips));
            let kept = select(marked, kept_class(cfg));
            let banned = retained_banned(cfg, marked);
            let idle = retained_idle(cfg, marked, fresh);
            &&& cleaned(cfg, peers, ips) == kept + banned + idle
            &&& forall|i: int|
                0 <= i < kept.len() ==> is_kept(cfg, #[trigger] kept[i]) && marked.contains(kept[i])
            &&& forall|i: int|
                0 <= i < banned.len() ==> is_banned_idle(cfg, #[trigger] banned[i])
                    && marked.contains(banned[i])
            &&& forall|i: int|
                0 <= i < idle.len() ==> is_idle(cfg, #[trigger] idle[i]) && (marked.contains(
                    idle[i],
                ) || fresh.contains(idle[i]))
            &&& banned.len() <= cfg.max_banned_peers
            &&& idle.len() <= cfg.max_idle_peers
            &&& is_sorted(banned, PeerOrder::MostRecentlyFailed)
            &&& is_sorted(idle, PeerOrder::MostRecentlyAlive)
        }),
{
    let marked = with_advertised(peers, ips);
    let fresh = fresh_records(new_candidates(cfg, peers, ips));
    lemma_fresh_records(cfg, peers, ips);
    lemma_kept_part(cfg, marked);
    lemma_banned_part(cfg, marked);
    lemma_idle_part(cfg, marked, fresh);
}

/// Each class of a cleaned directory is the part that cleanup made of it.
pub proof fn lemma_cleaned_classes(cfg: NetworkConfig, peers: Seq<PeerInfo>, ips: Seq<IpAddr>)
    ensures
        ({
            let marked = with_advertised(peers, ips);
            let fresh = fresh_records(new_candidates(cfg, peers, ips));
            let out = cleaned(cfg, peers, ips);
            &&& select(out, kept_class(cfg)) == select(marked, kept_class(cfg))
            &&& select(out, banned_class(cfg)) == retained_banned(cfg, marked)
            &&& select(out, idle_class(cfg)) == retained_idle(cfg, marked, fresh)
        }),
{
    let marked = with_advertised(peers, ips);
    let fresh = fresh_records(new_candidates(cfg, peers, ips));
    let kept = select(marked, kept_class(cfg));
    let banned = retained_banned(cfg, marked);
    let idle = retained_idle(cfg, marked, fresh);
    lemma_fresh_records(cfg, peers, ips);
    lemma_kept_part(cfg, marked);
    lemma_banned_part(cfg, marked);
    lemma_idle_part(cfg, marked, fresh);
    lemma_select_leaves_first(kept, banned, idle, kept_class(cfg));
    lemma_select_leaves_second(kept, banned, idle, banned_class(cfg));
    lemma_select_leaves_third(kept, banned, idle, idle_class(cfg));
}

/// Every record of a cleaned directory belongs to one of the three classes,
/// and is a record of the directory, marked as advertised where its address
/// was offered, or the record of a new peer.
pub proof fn lemma_cleaned_members(cfg: NetworkConfig, peers: Seq<PeerInfo>, ips: Seq<IpAddr>, k: int)
    requires
        0 <= k < cleaned(cfg, peers, ips).len(),
    ensures
        ({
            let x = cleaned(cfg, peers, ips)[k];
            &&& is_kept(cfg, x) || is_banned_idle(cfg, x) || is_idle(cfg, x)
            &&& with_advertised(peers, ips).contains(x) || fresh_records(
                new_candidates(cfg, peers, ips),
            ).contains(x)
        }),
{
    let marked = with_advertised(peers, ips);
    let fresh = fresh_records(new_candidates(cfg, peers, ips));
    let kept = select(marked, kept_class(cfg));
    let banned = retained_banned(cfg, marked);
    let idle = retained_idle(cfg, marked, fresh);
    let out = cleaned(cfg, peers, ips);
    lemma_parts(cfg, peers, ips);
    if k < kept.len() {
        assert(out[k] == kept[k]);
    } else if k < kept.len() + banned.len() {
        assert(out[k] == banned[k - kept.len()]);
    } else {
        assert(out[k] == idle[k - kept.len() - banned.len()]);
    }
}

/// After cleanup every record has an address that the configuration admits
/// and is active, a bootstrap peer, banned or advertised; no more than
/// `max_banned_peers` of the records that are not bootstrap peers are banned
/// and without connections, and no more than `max_idle_peers` of them are
/// advertised, not banned and without connections.
pub proof fn lemma_cleaned_is_bounded(cfg: NetworkConfig, peers: Seq<PeerInfo>, ips: Seq<IpAddr>)
    ensures
        forall|k: int|
            0 <= k < cleaned(cfg, peers, ips).len() ==> {
                let x = #[trigger] cleaned(cfg, peers, ips)[k];
                &&& cfg.admits(x.ip)
                &&& x.is_active() || x.bootstrap || x.banned || x.advertised
            },
        select(cleaned(cfg, peers, ips), banned_class(cfg)).len() <= cfg.max_banned_peers,
        select(cleaned(cfg, peers, ips), idle_class(cfg)).len() <= cfg.max_idle_peers,
{
    let marked = with_advertised(peers, ips);
    let fresh = fresh_records(new_candidates(cfg, peers, ips));
    let out = cleaned(cfg, peers, ips);
    assert(select(out, banned_class(cfg)).len() <= cfg.max_banned_peers && select(
        out,
        idle_class(cfg),
    ).len() <= cfg.max_idle_peers) by {
        lemma_cleaned_classes(cfg, peers, ips);
        lemma_truncated_members(
            sorted_by(select(marked, banned_class(cfg)), PeerOrder::MostRecentlyFailed),
            cfg.max_banned_peers as nat,
        );
        lemma_truncated_members(
            sorted_by(select(marked, idle_class(cfg)) + fresh, PeerOrder::MostRecentlyAlive),
            cfg.max_idle_peers as nat,
        );
    }
    assert forall|k: int| 0 <= k < out.len() implies {
        let x = #[trigger] out[k];
        &&& cfg.admits(x.ip)
        &&& x.is_active() || x.bootstrap || x.banned || x.advertised
    } by {
        lemma_cleaned_members(cfg, peers, ips, k);
    }
}

/// Cleanup evicts no record that is active or a bootstrap peer, unless the
/// configuration does not admit its address.
pub proof fn lemma_cleaned_keeps(cfg: NetworkConfig, peers: Seq<PeerInfo>, ips: Seq<IpAddr>, i: int)
    requires
        0 <= i < peers.len(),
        is_kept(cfg, peers[i]),
    ensures
        cleaned(cfg, peers, ips).contains(with_advertised(peers, ips)[i]),
        with_advertised(peers, ips)[i].ip == peers[i].ip,
{
    let marked = with_advertised(peers, ips);
    let kept = select(marked, kept_class(cfg));
    let out = cleaned(cfg, peers, ips);
    lemma_parts(cfg, peers, ips);
    lemma_select_members(marked, kept_class(cfg));
    assert(marked.contains(marked[i]));
    assert(kept.contains(marked[i]));
    let k = choose|k: int| 0 <= k < kept.len() && kept[k] == marked[i];
    assert(out[k] == marked[i]);
}

/// Cleaning a cleaned directory again changes nothing.
pub proof fn lemma_cleaned_is_idempotent(cfg: NetworkConfig, peers: Seq<PeerInfo>, ips: Seq<IpAddr>)
    ensures
        cleaned(cfg, cleaned(cfg, peers, ips), Seq::empty()) == cleaned(cfg, peers, ips),
{
    let marked = with_advertised(peers, ips);
    let fresh = fresh_records(new_candidates(cfg, peers, ips));
    let kept = select(marked, kept_class(cfg));
    let banned = retained_banned(cfg, marked);
    let idle = retained_idle(cfg, marked, fresh);
    let out = cleaned(cfg, peers, ips);
    let none = Seq::<IpAddr>::empty();
    let nobody = Seq::<PeerInfo>::empty();
    lemma_cleaned_classes(cfg, peers, ips);
    assert(with_advertised(out, none) == out);
    assert(fresh_records(new_candidates(cfg, out, none)) == nobody) by {
        assert(select(first_occurrences(none), candidate_class(cfg, out)) == none) by {
            reveal(select);
        }
    }
    assert(retained_banned(cfg, out) == banned) by {
        lemma_banned_part(cfg, marked);
        lemma_sorted_truncated_fixes(
            banned,
            PeerOrder::MostRecentlyFailed,
            cfg.max_banned_peers as nat,
        );
    }
    assert(retained_idle(cfg, out, nobody) == idle) by {
        lemma_fresh_records(cfg, peers, ips);
        lemma_idle_part(cfg, marked, fresh);
        assert(idle + nobody == idle);
        lemma_sorted_truncated_fixes(idle, PeerOrder::MostRecentlyAlive, cfg.max_idle_peers as nat);
    }
}

/// Cleaning a directory in which no two records share an address leaves none
/// that do.
pub proof fn lemma_cleaned_is_unique(cfg: NetworkConfig, peers: Seq<PeerInfo>, ips: Seq<IpAddr>)
    requires
        unique_ips(peers),
    ensures
        unique_ips(cleaned(cfg, peers, ips)),
{
    let marked = with_advertised(peers, ips);
    let fresh = fresh_records(new_candidates(cfg, peers, ips));
    let kept = select(marked, kept_class(cfg));
    let banned_all = select(marked, banned_class(cfg));
    let banned = retained_banned(cfg, marked);
    let idle_known = select(marked, idle_class(cfg));
    let idle = retained_idle(cfg, marked, fresh);
    lemma_parts(cfg, peers, ips);
    lemma_with_advertised(peers, ips);
    lemma_fresh_records(cfg, peers, ips);
    lemma_unique_select(marked, kept_class(cfg));
    lemma_unique_select(marked, banned_class(cfg));
    lemma_unique_select(marked, idle_class(cfg));
    lemma_unique_sorted(banned_all, PeerOrder::MostRecentlyFailed);
    lemma_unique_truncated(
        sorted_by(banned_all, PeerOrder::MostRecentlyFailed),
        cfg.max_banned_peers as nat,
    );
    lemma_select_members(marked, idle_class(cfg));
    assert forall|i: int, j: int| 0 <= i < idle_known.len() && 0 <= j < fresh.len() implies (
    #[trigger] idle_known[i]).ip != (#[trigger] fresh[j]).ip by {
        assert(idle_known.contains(idle_known[i]));
        lemma_member_has_ip(marked, idle_known[i]);
    }
    lemma_unique_concat(idle_known, fresh);
    lemma_unique_sorted(idle_known + fresh, PeerOrder::MostRecentlyAlive);
    lemma_unique_truncated(
        sorted_by(idle_known + fresh, PeerOrder::MostRecentlyAlive),
        cfg.max_idle_peers as nat,
    );
    assert forall|i: int, j: int| 0 <= i < kept.len() && 0 <= j < banned.len() implies (
    #[trigger] kept[i]).ip != (#[trigger] banned[j]).ip by {
        if kept[i].ip == banned[j].ip {
            lemma_same_ip_same_record(marked, kept[i], banned[j]);
        }
    }
    lemma_unique_concat(kept, banned);
    let both = kept + banned;
    assert forall|i: int, j: int| 0 <= i < both.len() && 0 <= j < idle.len() implies (
    #[trigger] both[i]).ip != (#[trigger] idle[j]).ip by {
        let a = both[i];
        if i < kept.len() {
            assert(a == kept[i]);
        } else {
            assert(a == banned[i - kept.len()]);
        }
        assert(marked.contains(a));
        if a.ip == idle[j].ip {
            if marked.contains(idle[j]) {
                lemma_same_ip_same_record(marked, a, idle[j]);
            } else {
                lemma_member_has_ip(marked, a);
                let k = choose|k: int| 0 <= k < fresh.len() && fresh[k] == idle[j];
                assert(!has_ip(peers, fresh[k].ip));
            }
        }
    }
    lemma_unique_concat(both, idle);
}

/// Where the configuration admits the address of every record, cleanup
/// evicts only records without connections, so the sum of each counter over
/// the directory stays as it was.
pub proof fn lemma_cleaned_keeps_totals(
    cfg: NetworkConfig,
    peers: Seq<PeerInfo>,
    ips: Seq<IpAddr>,
    c: Counter,
)
    requires
        forall|i: int| 0 <= i < peers.len() ==> cfg.admits((#[trigger] peers[i]).ip),
    ensures
        total(cleaned(cfg, peers, ips), c) == total(peers, c),
{
    let marked = with_advertised(peers, ips);
    let fresh = fresh_records(new_candidates(cfg, peers, ips));
    let kept = select(marked, kept_class(cfg));
    let banned = retained_banned(cfg, marked);
    let idle = retained_idle(cfg, marked, fresh);
    lemma_parts(cfg, peers, ips);
    lemma_with_advertised(peers, ips);
    lemma_total_concat(kept + banned, idle, c);
    lemma_total_concat(kept, banned, c);
    lemma_total_zero(banned, c);
    lemma_total_zero(idle, c);
    assert forall|i: int| 0 <= i < marked.len() && !kept_class(cfg)(
        #[trigger] marked[i],
    ) implies marked[i].count(c) == 0 by {
        assert(cfg.admits(peers[i].ip));
    }
    lemma_total_select(marked, kept_class(cfg), c);
}

/// Known peers go before new ones: among the idle records that cleanup
/// retains, a record of a new peer never stands before a record that the
/// directory held and that is ranked alike. So where a new peer is retained,
/// every idle record of the directory that is ranked like it is retained too.
pub proof fn lemma_known_before_new(cfg: NetworkConfig, peers: Seq<PeerInfo>, ips: Seq<IpAddr>)
    requires
        unique_ips(peers),
    ensures
        ({
            let marked = with_advertised(peers, ips);
            let fresh = fresh_records(new_candidates(cfg, peers, ips));
            let idle = retained_idle(cfg, marked, fresh);
            &&& forall|a: int, b: int|
                0 <= a < b < idle.len() && ranked_alike(
                    PeerOrder::MostRecentlyAlive,
                    idle[a],
                    idle[b],
                ) && has_ip(peers, idle[b].ip) ==> has_ip(peers, idle[a].ip)
            &&& forall|i: int, b: int|
                0 <= i < marked.len() && 0 <= b < idle.len() && is_idle(cfg, marked[i])
                    && !has_ip(peers, idle[b].ip) && ranked_alike(
                    PeerOrder::MostRecentlyAlive,
                    marked[i],
                    idle[b],
                ) ==> idle.contains(marked[i])
        }),
{
    let order = PeerOrder::MostRecentlyAlive;
    let marked = with_advertised(peers, ips);
    let fresh = fresh_records(new_candidates(cfg, peers, ips));
    let known = select(marked, idle_class(cfg));
    let all = known + fresh;
    let sorted = sorted_by(all, order);
    let idle = retained_idle(cfg, marked, fresh);
    lemma_parts(cfg, peers, ips);
    lemma_with_advertised(peers, ips);
    lemma_fresh_records(cfg, peers, ips);
    lemma_select_members(marked, idle_class(cfg));
    lemma_unique_select(marked, idle_class(cfg));
    assert forall|i: int, j: int| 0 <= i < known.len() && 0 <= j < fresh.len() implies (
    #[trigger] known[i]).ip != (#[trigger] fresh[j]).ip by {
        assert(known.contains(known[i]));
        lemma_member_has_ip(marked, known[i]);
    }
    lemma_unique_concat(known, fresh);
    lemma_unique_sorted(all, order);
    lemma_sorted_by_contains(all, order);
    lemma_sorted_by_permutes(all, order);
    lemma_truncated_members(sorted, cfg.max_idle_peers as nat);
    assert forall|a: int, b: int|
        0 <= a < b < idle.len() && ranked_alike(order, idle[a], idle[b]) && has_ip(
            peers,
            idle[b].ip,
        ) implies has_ip(peers, idle[a].ip) by {
        if !has_ip(peers, idle[a].ip) {
            assert(idle[a] == sorted[a] && idle[b] == sorted[b]);
            assert(sorted.contains(sorted[a]) && sorted.contains(sorted[b]));
            assert(all.contains(idle[a]) && all.contains(idle[b]));
            let ka = choose|k: int| 0 <= k < all.len() && all[k] == idle[a];
            let kb = choose|k: int| 0 <= k < all.len() && all[k] == idle[b];
            if ka < known.len() {
                assert(known[ka] == idle[a]);
                assert(known.contains(idle[a]));
                lemma_member_has_ip(marked, idle[a]);
            }
            if kb >= known.len() {
                assert(fresh[kb - known.len()] == idle[b]);
            }
            let at = lemma_sorted_by_keeps_order(all, order, kb, ka);
            assert(sorted[at.0].ip == sorted[b].ip && sorted[at.1].ip == sorted[a].ip);
        }
    }
    assert forall|i: int, b: int|
        0 <= i < marked.len() && 0 <= b < idle.len() && is_idle(cfg, marked[i]) && !has_ip(
            peers,
            idle[b].ip,
        ) && ranked_alike(order, marked[i], idle[b]) implies idle.contains(marked[i]) by {
        assert(marked.contains(marked[i]));
        assert(known.contains(marked[i]));
        let ki = choose|k: int| 0 <= k < known.len() && known[k] == marked[i];
        assert(idle[b] == sorted[b]);
        assert(sorted.contains(sorted[b]));
        assert(all.contains(idle[b]));
        let kb = choose|k: int| 0 <= k < all.len() && all[k] == idle[b];
        if kb < known.len() {
            assert(known[kb] == idle[b]);
            assert(known.contains(idle[b]));
            lemma_member_has_ip(marked, idle[b]);
        }
        assert(all[ki] == known[ki]);
        let at = lemma_sorted_by_keeps_order(all, order, ki, kb);
        assert(sorted[at.1].ip == sorted[b].ip);
        assert(idle[at.0] == marked[i]);
    }
}

} // verus!
