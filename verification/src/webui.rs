//! Who is watching which web UI page.
//!
//! A page can be shared by the desktop's own panels and any number of
//! phone clients. The upstream subscription to a page must last as long
//! as anyone still watches it: subscribing is always forwarded upstream,
//! but an unsubscribe goes upstream only when the page's last consumer
//! leaves. Consumers form a set per page, so repeated subscribes are
//! idempotent. This module decides; the caller talks to the bridge.

use vstd::prelude::*;
use crate::seqs::lemma_filter_step;
use crate::text::str_eq;

verus! {

/// Who consumes a page: the desktop's own panels, or a remote client.
#[derive(Debug, Clone, Copy, PartialEq, Eq, Hash, Structural)]
pub enum WebUiConsumer {
    Local,
    Remote(u64),
}

/// (page, consumer).
pub type Subscription = (Seq<char>, WebUiConsumer);

/// The subscription table: a set of (page, consumer) pairs.
pub struct WebUiSubscriptions {
    pairs: Vec<(String, WebUiConsumer)>,
}

/// A stored pair as a view.
pub open spec fn pair_view(e: (String, WebUiConsumer)) -> Subscription {
    (e.0@, e.1)
}

/// The stored pairs as views.
pub open spec fn pair_views(v: Seq<(String, WebUiConsumer)>) -> Seq<Subscription> {
    v.map_values(|e: (String, WebUiConsumer)| pair_view(e))
}

/// Someone watches `page`.
pub open spec fn watched(s: Set<Subscription>, page: Seq<char>) -> bool {
    exists|c: WebUiConsumer| #[trigger] s.contains((page, c))
}

/// The pairs left after a remote client leaves.
pub open spec fn without_client(s: Set<Subscription>, client_id: u64) -> Set<Subscription> {
    s.filter(|x: Subscription| x.1 != WebUiConsumer::Remote(client_id))
}

/// Pairs a removal takes out: the consumer's, on `page` when one is given.
pub open spec fn taken_out(page: Option<Seq<char>>, consumer: WebUiConsumer) -> spec_fn(
    Subscription,
) -> bool {
    |x: Subscription|
        x.1 == consumer && match page {
            Some(p) => x.0 == p,
            None => true,
        }
}

/// Pairs a removal keeps.
pub open spec fn left_in(page: Option<Seq<char>>, consumer: WebUiConsumer) -> spec_fn(
    Subscription,
) -> bool {
    |x: Subscription| !taken_out(page, consumer)(x)
}

impl View for WebUiSubscriptions {
    type V = Set<Subscription>;

    closed spec fn view(&self) -> Set<Subscription> {
        pair_views(self.pairs@).to_set()
    }
}

proof fn lemma_filter_keeps_no_duplicates(s: Seq<Subscription>, p: spec_fn(Subscription) -> bool)
    requires
        s.no_duplicates(),
    ensures
        s.filter(p).no_duplicates(),
    decreases s.len(),
{
    reveal(Seq::filter);
    if s.len() > 0 {
        let rest = s.drop_last();
        assert(rest.no_duplicates()) by {
            assert forall|a: int, b: int| 0 <= a < rest.len() && 0 <= b < rest.len() && a != b implies rest[a] != rest[b] by {
                assert(rest[a] == s[a] && rest[b] == s[b]);
            }
        }
        lemma_filter_keeps_no_duplicates(rest, p);
        if p(s.last()) {
            let f = rest.filter(p);
            if f.contains(s.last()) {
                rest.lemma_filter_contains_rev(p, s.last());
                let k = choose|k: int| 0 <= k < rest.len() && rest[k] == s.last();
                assert(s[k] == s[s.len() - 1]);
            }
            let g = f.push(s.last());
            assert forall|a: int, b: int| 0 <= a < g.len() && 0 <= b < g.len() && a != b implies g[a] != g[b] by {
                if a == g.len() - 1 {
                    assert(f.contains(g[b]) || b == a);
                } else if b == g.len() - 1 {
                    assert(f.contains(g[a]));
                }
            }
        }
    }
}

/// The table after subscribing.
proof fn lemma_views_push(v: Seq<(String, WebUiConsumer)>, e: (String, WebUiConsumer))
    ensures
        pair_views(v.push(e)) == pair_views(v).push(pair_view(e)),
{
    assert(pair_views(v.push(e)) =~= pair_views(v).push(pair_view(e)));
}

impl WebUiSubscriptions {
    #[verifier::type_invariant]
    closed spec fn unique(self) -> bool {
        pair_views(self.pairs@).no_duplicates()
    }

    /// No subscriptions.
    pub fn new() -> (r: Self)
        ensures
            r@ == Set::<Subscription>::empty(),
    {
        let r = WebUiSubscriptions { pairs: Vec::new() };
        assert(pair_views(r.pairs@) =~= Seq::<Subscription>::empty());
        assert(r@ =~= Set::<Subscription>::empty());
        r
    }

    /// Does `consumer` watch `page`?
    pub fn contains(&self, consumer: WebUiConsumer, page: &str) -> (r: bool)
        ensures
            r == self@.contains((page@, consumer)),
    {
        let ghost vv = pair_views(self.pairs@);
        let mut i: usize = 0;
        while i < self.pairs.len()
            invariant
                i <= self.pairs@.len(),
                vv == pair_views(self.pairs@),
                forall|j: int| 0 <= j < i ==> vv[j] != (page@, consumer),
            decreases self.pairs@.len() - i,
        {
            if self.pairs[i].1 == consumer && str_eq(self.pairs[i].0.as_str(), page) {
                assert(vv[i as int] == (page@, consumer));
                return true;
            }
            i = i + 1;
        }
        false
    }

    /// Does anyone watch `page`?
    pub fn is_watched(&self, page: &str) -> (r: bool)
        ensures
            r == watched(self@, page@),
    {
        let ghost vv = pair_views(self.pairs@);
        let mut i: usize = 0;
        while i < self.pairs.len()
            invariant
                i <= self.pairs@.len(),
                vv == pair_views(self.pairs@),
                forall|j: int| 0 <= j < i ==> vv[j].0 != page@,
            decreases self.pairs@.len() - i,
        {
            if str_eq(self.pairs[i].0.as_str(), page) {
                assert(vv.contains(vv[i as int]));
                assert(self@.contains((page@, vv[i as int].1)));
                return true;
            }
            i = i + 1;
        }
        proof {
            assert forall|c: WebUiConsumer| !#[trigger] self@.contains((page@, c)) by {
                if vv.contains((page@, c)) {
                    let j = choose|j: int| 0 <= j < vv.len() && vv[j] == (page@, c);
                }
            }
        }
        false
    }

    /// Subscribe a consumer to a page. The caller always forwards the
    /// subscribe upstream (it is idempotent there and renders the page for
    /// the newcomer).
    pub fn webui_subscribe(&mut self, consumer: WebUiConsumer, page: &str)
        ensures
            final(self)@ == old(self)@.insert((page@, consumer)),
    {
        if self.contains(consumer, page) {
            proof {
                assert(old(self)@.insert((page@, consumer)) =~= old(self)@);
            }
            return;
        }
        proof {
            use_type_invariant(&*self);
        }
        let mut pairs: Vec<(String, WebUiConsumer)> = Vec::new();
        std::mem::swap(&mut pairs, &mut self.pairs);
        let ghost v0 = pairs@;
        let e = (page.to_owned(), consumer);
        proof {
            lemma_views_push(v0, e);
        }
        pairs.push(e);
        proof {
            let vv = pair_views(v0);
            let ww = pair_views(pairs@);
            assert(ww == vv.push((page@, consumer)));
            assert(!vv.contains((page@, consumer)));
            assert forall|a: int, b: int| 0 <= a < ww.len() && 0 <= b < ww.len() && a != b implies ww[a] != ww[b] by {
                if a < vv.len() && b < vv.len() {
                    assert(ww[a] == vv[a] && ww[b] == vv[b]);
                } else if a < vv.len() {
                    assert(ww[a] == vv[a]);
                    assert(vv.contains(vv[a]));
                } else if b < vv.len() {
                    assert(ww[b] == vv[b]);
                    assert(vv.contains(vv[b]));
                }
            }
            assert(ww.to_set() =~= vv.to_set().insert((page@, consumer))) by {
                assert forall|x: Subscription| ww.contains(x) <==> (vv.contains(x) || x == (page@, consumer)) by {
                    if ww.contains(x) {
                        let k = choose|k: int| 0 <= k < ww.len() && ww[k] == x;
                        if k < vv.len() {
                            assert(vv[k] == x);
                        }
                    }
                    if vv.contains(x) {
                        let k = choose|k: int| 0 <= k < vv.len() && vv[k] == x;
                        assert(ww[k] == x);
                    }
                    if x == (page@, consumer) {
                        assert(ww[vv.len() as int] == x);
                    }
                }
            }
        }
        self.pairs = pairs;
    }

    /// Remove the pairs `taken_out(page, consumer)` selects. Returns the
    /// pages of the removed pairs, each once.
    fn retain_pairs(&mut self, page: Option<&str>, consumer: WebUiConsumer) -> (removed: Vec<String>)
        ensures
            final(self)@ == old(self)@.filter(
                left_in(
                    match page {
                        Some(p) => Some(p@),
                        None => None,
                    },
                    consumer,
                ),
            ),
            forall|p: Seq<char>|
                (exists|k: int| 0 <= k < removed@.len() && #[trigger] removed@[k]@ == p) <==> (
                old(self)@.contains((p, consumer)) && (page matches Some(q) ==> p == q@)),
            removed@.map_values(|s: String| s@).no_duplicates(),
    {
        proof {
            use_type_invariant(&*self);
        }
        let ghost pg = match page {
            Some(p) => Some(p@),
            None => None,
        };
        let ghost out = taken_out(pg, consumer);
        let ghost keep = left_in(pg, consumer);
        let mut pairs: Vec<(String, WebUiConsumer)> = Vec::new();
        std::mem::swap(&mut pairs, &mut self.pairs);
        let ghost v0 = pairs@;
        let ghost vv = pair_views(v0);
        let mut kept: Vec<(String, WebUiConsumer)> = Vec::new();
        let mut removed: Vec<String> = Vec::new();
        let mut i: usize = 0;
        while i < pairs.len()
            invariant
                i <= pairs@.len(),
                pairs@ == v0,
                vv == pair_views(v0),
                out == taken_out(pg, consumer),
                keep == left_in(pg, consumer),
                pg == match page {
                    Some(p) => Some(p@),
                    None => None::<Seq<char>>,
                },
                pair_views(kept@) == vv.take(i as int).filter(keep),
                removed@.map_values(|s: String| s@) == vv.take(i as int).filter(out).map_values(
                    |x: Subscription| x.0,
                ),
            decreases pairs@.len() - i,
        {
            proof {
                lemma_filter_step(vv, keep, i as int);
                lemma_filter_step(vv, out, i as int);
            }
            let is_out = pairs[i].1 == consumer && match page {
                Some(q) => str_eq(pairs[i].0.as_str(), q),
                None => true,
            };
            assert(is_out == out(vv[i as int]));
            if is_out {
                let ghost r0 = removed@.map_values(|s: String| s@);
                removed.push(pairs[i].0.clone());
                proof {
                    assert(removed@.map_values(|s: String| s@) =~= r0.push(vv[i as int].0));
                    assert(vv.take(i as int + 1).filter(out).map_values(|x: Subscription| x.0) =~= vv.take(
                        i as int,
                    ).filter(out).map_values(|x: Subscription| x.0).push(vv[i as int].0));
                }
            } else {
                let ghost k0 = kept@;
                let e = (pairs[i].0.clone(), pairs[i].1);
                proof {
                    lemma_views_push(k0, e);
                }
                kept.push(e);
            }
            i = i + 1;
        }
        proof {
            assert(vv.take(i as int) =~= vv);
            assert(old(self)@ == vv.to_set());
            let kv = vv.filter(keep);
            let ov = vv.filter(out);
            broadcast use vstd::seq_lib::group_filter_ensures;
            lemma_filter_keeps_no_duplicates(vv, keep);
            lemma_filter_keeps_no_duplicates(vv, out);
            assert(kv.to_set() =~= vv.to_set().filter(keep)) by {
                assert forall|x: Subscription| kv.contains(x) <==> (vv.contains(x) && keep(x)) by {
                    if kv.contains(x) {
                        vv.lemma_filter_contains_rev(keep, x);
                        let k = choose|k: int| 0 <= k < kv.len() && kv[k] == x;
                        vv.lemma_filter_pred(keep, k);
                    }
                    if vv.contains(x) && keep(x) {
                        let j = choose|j: int| 0 <= j < vv.len() && vv[j] == x;
                        vv.lemma_filter_contains(keep, j);
                    }
                }
            }
            let rv = removed@.map_values(|s: String| s@);
            assert forall|p: Seq<char>|
                (exists|k: int| 0 <= k < removed@.len() && #[trigger] removed@[k]@ == p) <==> (old(self)@.contains(
                    (p, consumer),
                ) && (page matches Some(q) ==> p == q@)) by {
                if exists|k: int| 0 <= k < removed@.len() && #[trigger] removed@[k]@ == p {
                    let k = choose|k: int| 0 <= k < removed@.len() && #[trigger] removed@[k]@ == p;
                    assert(rv[k] == p);
                    assert(ov[k].0 == p);
                    vv.lemma_filter_pred(out, k);
                    assert(ov.contains(ov[k]));
                    vv.lemma_filter_contains_rev(out, ov[k]);
                    assert(ov[k] == (p, consumer));
                }
                if old(self)@.contains((p, consumer)) && (page matches Some(q) ==> p == q@) {
                    let j = choose|j: int| 0 <= j < vv.len() && vv[j] == (p, consumer);
                    vv.lemma_filter_contains(out, j);
                    let k = choose|k: int| 0 <= k < ov.len() && ov[k] == (p, consumer);
                    assert(rv[k] == p);
                    assert(removed@[k]@ == p);
                }
            }
            assert forall|a: int, b: int| 0 <= a < rv.len() && 0 <= b < rv.len() && a != b implies rv[a] != rv[b] by {
                vv.lemma_filter_pred(out, a);
                vv.lemma_filter_pred(out, b);
                assert(ov[a].1 == consumer && ov[b].1 == consumer);
                assert(ov[a] != ov[b]);
            }
        }
        self.pairs = kept;
        removed
    }

    /// Drop one consumer from a page. Returns whether the page must now be
    /// released upstream: it was watched, and this consumer was the last.
    pub fn webui_unsubscribe(&mut self, consumer: WebUiConsumer, page: &str) -> (release: bool)
        ensures
            final(self)@ == old(self)@.remove((page@, consumer)),
            release == (watched(old(self)@, page@) && !watched(final(self)@, page@)),
    {
        if !self.is_watched(page) {
            proof {
                assert(!old(self)@.contains((page@, consumer)));
                assert(old(self)@.remove((page@, consumer)) =~= old(self)@);
            }
            return false;
        }
        let ghost s0 = self@;
        let _ = self.retain_pairs(Some(page), consumer);
        assert(self@ =~= s0.remove((page@, consumer)));
        !self.is_watched(page)
    }

    /// A remote client is gone: remove every subscription it held. Returns
    /// the pages to release upstream, each once: those it was the last
    /// consumer of.
    pub fn webui_client_gone(&mut self, client_id: u64) -> (released: Vec<String>)
        ensures
            final(self)@ == without_client(old(self)@, client_id),
            forall|p: Seq<char>|
                (exists|k: int| 0 <= k < released@.len() && #[trigger] released@[k]@ == p) <==> (watched(
                    old(self)@,
                    p,
                ) && !watched(final(self)@, p)),
            released@.map_values(|s: String| s@).no_duplicates(),
    {
        let consumer = WebUiConsumer::Remote(client_id);
        let ghost s0 = self@;
        let dropped = self.retain_pairs(None, consumer);
        assert(self@ =~= without_client(s0, client_id));
        let ghost dv = dropped@.map_values(|s: String| s@);
        let ghost unwatched = |p: Seq<char>| !watched(self@, p);
        let mut released: Vec<String> = Vec::new();
        let mut i: usize = 0;
        while i < dropped.len()
            invariant
                i <= dropped@.len(),
                self@ == without_client(s0, client_id),
                dv == dropped@.map_values(|s: String| s@),
                unwatched == (|p: Seq<char>| !watched(self@, p)),
                released@.map_values(|s: String| s@) == dv.take(i as int).filter(unwatched),
            decreases dropped@.len() - i,
        {
            proof {
                lemma_filter_step(dv, unwatched, i as int);
            }
            if !self.is_watched(dropped[i].as_str()) {
                let ghost r0 = released@.map_values(|s: String| s@);
                released.push(dropped[i].clone());
                proof {
                    assert(released@.map_values(|s: String| s@) =~= r0.push(dv[i as int]));
                }
            }
            i = i + 1;
        }
        proof {
            assert(dv.take(i as int) =~= dv);
            broadcast use vstd::seq_lib::group_filter_ensures;
            let rv = released@.map_values(|s: String| s@);
            lemma_seq_no_dup_filter(dv, unwatched);
            assert forall|p: Seq<char>|
                (exists|k: int| 0 <= k < released@.len() && #[trigger] released@[k]@ == p) <==> (watched(s0, p)
                    && !watched(self@, p)) by {
                if exists|k: int| 0 <= k < released@.len() && #[trigger] released@[k]@ == p {
                    let k = choose|k: int| 0 <= k < released@.len() && #[trigger] released@[k]@ == p;
                    assert(rv[k] == p);
                    dv.lemma_filter_pred(unwatched, k);
                    assert(rv.contains(p));
                    dv.lemma_filter_contains_rev(unwatched, p);
                    let j = choose|j: int| 0 <= j < dv.len() && dv[j] == p;
                    assert(dropped@[j]@ == p);
                    assert(s0.contains((p, consumer)));
                }
                if watched(s0, p) && !watched(self@, p) {
                    let c = choose|c: WebUiConsumer| #[trigger] s0.contains((p, c));
                    if c != consumer {
                        assert(self@.contains((p, c)));
                    }
                    let j = choose|j: int| 0 <= j < dropped@.len() && #[trigger] dropped@[j]@ == p;
                    assert(dv[j] == p);
                    dv.lemma_filter_contains(unwatched, j);
                    let k = choose|k: int| 0 <= k < rv.len() && rv[k] == p;
                    assert(released@[k]@ == p);
                }
            }
        }
        released
    }

    /// Every watched page, each once (replayed upstream after the bridge
    /// reconnects).
    pub fn pages(&self) -> (r: Vec<String>)
        ensures
            forall|p: Seq<char>|
                (exists|k: int| 0 <= k < r@.len() && #[trigger] r@[k]@ == p) <==> watched(self@, p),
            r@.map_values(|s: String| s@).no_duplicates(),
    {
        let ghost vv = pair_views(self.pairs@);
        let mut r: Vec<String> = Vec::new();
        let mut i: usize = 0;
        while i < self.pairs.len()
            invariant
                i <= self.pairs@.len(),
                vv == pair_views(self.pairs@),
                r@.map_values(|s: String| s@).no_duplicates(),
                forall|k: int| 0 <= k < r@.len() ==> watched(self@, (#[trigger] r@[k])@),
                forall|j: int|
                    #![trigger vv[j]]
                    0 <= j < i ==> r@.map_values(|s: String| s@).contains(vv[j].0),
            decreases self.pairs@.len() - i,
        {
            let page = self.pairs[i].0.as_str();
            let ghost rv0 = r@.map_values(|s: String| s@);
            let mut seen = false;
            let mut k: usize = 0;
            while k < r.len()
                invariant
                    k <= r@.len(),
                    rv0 == r@.map_values(|s: String| s@),
                    seen ==> rv0.contains(page@),
                    !seen ==> forall|q: int| 0 <= q < k ==> rv0[q] != page@,
                decreases r@.len() - k,
            {
                if str_eq(r[k].as_str(), page) {
                    assert(rv0[k as int] == page@);
                    seen = true;
                }
                k = k + 1;
            }
            if !seen {
                r.push(self.pairs[i].0.clone());
                proof {
                    let rv = r@.map_values(|s: String| s@);
                    assert(rv =~= rv0.push(page@));
                    assert(vv[i as int].0 == page@);
                    assert(vv.contains(vv[i as int]));
                    assert(self@.contains((page@, vv[i as int].1)));
                    assert forall|a: int, b: int| 0 <= a < rv.len() && 0 <= b < rv.len() && a != b implies rv[a] != rv[b] by {
                        if a < rv0.len() && b < rv0.len() {
                        } else if a < rv0.len() {
                            assert(rv[a] == rv0[a]);
                        } else if b < rv0.len() {
                            assert(rv[b] == rv0[b]);
                        }
                    }
                    assert forall|q: int| 0 <= q < r@.len() implies watched(self@, (#[trigger] r@[q])@) by {
                        if q < rv0.len() {
                            assert(r@[q]@ == rv0[q]);
                        }
                    }
                    assert forall|j: int| #![trigger vv[j]] 0 <= j < i + 1 implies rv.contains(vv[j].0) by {
                        if j < i {
                            let q = choose|q: int| 0 <= q < rv0.len() && rv0[q] == vv[j].0;
                            assert(rv[q] == rv0[q]);
                        } else {
                            assert(rv[rv0.len() as int] == page@);
                        }
                    }
                }
            }
            i = i + 1;
        }
        proof {
            let rv = r@.map_values(|s: String| s@);
            assert forall|p: Seq<char>|
                (exists|k: int| 0 <= k < r@.len() && #[trigger] r@[k]@ == p) <==> watched(self@, p) by {
                if watched(self@, p) {
                    let c = choose|c: WebUiConsumer| #[trigger] self@.contains((p, c));
                    let j = choose|j: int| 0 <= j < vv.len() && vv[j] == (p, c);
                    assert(rv.contains(vv[j].0));
                    let q = choose|q: int| 0 <= q < rv.len() && rv[q] == p;
                    assert(r@[q]@ == p);
                }
            }
        }
        r
    }
}

proof fn lemma_seq_no_dup_filter(s: Seq<Seq<char>>, p: spec_fn(Seq<char>) -> bool)
    requires
        s.no_duplicates(),
    ensures
        s.filter(p).no_duplicates(),
    decreases s.len(),
{
    reveal(Seq::filter);
    if s.len() > 0 {
        let rest = s.drop_last();
        assert(rest.no_duplicates()) by {
            assert forall|a: int, b: int| 0 <= a < rest.len() && 0 <= b < rest.len() && a != b implies rest[a] != rest[b] by {
                assert(rest[a] == s[a] && rest[b] == s[b]);
            }
        }
        lemma_seq_no_dup_filter(rest, p);
        if p(s.last()) {
            let f = rest.filter(p);
            if f.contains(s.last()) {
                rest.lemma_filter_contains_rev(p, s.last());
                let k = choose|k: int| 0 <= k < rest.len() && rest[k] == s.last();
                assert(s[k] == s[s.len() - 1]);
            }
            let g = f.push(s.last());
            assert forall|a: int, b: int| 0 <= a < g.len() && 0 <= b < g.len() && a != b implies g[a] != g[b] by {
                if a == g.len() - 1 {
                    assert(f.contains(g[b]) || b == a);
                } else if b == g.len() - 1 {
                    assert(f.contains(g[a]));
                }
            }
        }
    }
}

/// A shared page stays subscribed while anyone still watches it: when one
/// consumer leaves, another consumer's subscription keeps it watched.
pub proof fn a_shared_page_outlives_one_consumer(
    s: Set<Subscription>,
    page: Seq<char>,
    leaving: WebUiConsumer,
    staying: WebUiConsumer,
)
    requires
        s.contains((page, staying)),
        leaving != staying,
    ensures
        watched(s.remove((page, leaving)), page),
        watched(without_client_set(s, leaving), page),
{
    assert(s.remove((page, leaving)).contains((page, staying)));
    assert(without_client_set(s, leaving).contains((page, staying)));
}

/// Every pair of a consumer, as a set filter.
pub open spec fn without_client_set(s: Set<Subscription>, consumer: WebUiConsumer) -> Set<Subscription> {
    s.filter(|x: Subscription| x.1 != consumer)
}

/// Subscribing is idempotent, and a consumer that subscribes and then
/// unsubscribes leaves the table as it found it.
pub proof fn subscribe_then_unsubscribe_restores(s: Set<Subscription>, page: Seq<char>, c: WebUiConsumer)
    ensures
        s.insert((page, c)).insert((page, c)) == s.insert((page, c)),
        !s.contains((page, c)) ==> s.insert((page, c)).remove((page, c)) == s,
{
    assert(s.insert((page, c)).insert((page, c)) =~= s.insert((page, c)));
    if !s.contains((page, c)) {
        assert(s.insert((page, c)).remove((page, c)) =~= s);
    }
}

/// A client leaving twice is the same as leaving once, and it never
/// touches another consumer's subscriptions.
pub proof fn a_client_leaving_touches_only_its_own_pages(s: Set<Subscription>, client_id: u64)
    ensures
        without_client(without_client(s, client_id), client_id) == without_client(s, client_id),
        forall|x: Subscription|
            x.1 != WebUiConsumer::Remote(client_id) ==> (#[trigger] without_client(s, client_id).contains(x)
                <==> s.contains(x)),
{
    assert(without_client(without_client(s, client_id), client_id) =~= without_client(s, client_id));
}

} // verus!
