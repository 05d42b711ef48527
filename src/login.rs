//! The sign-in handshake with the identity provider, as a two-phase
//! protocol: `begin` records a short-lived opaque state token, and the
//! callback completes the login only if it brings back a live token. Every
//! entry leaves the map on completion or on expiry.
use vstd::prelude::*;

use crate::event::Timestamp;

verus! {

/// The RSA signature schemes accepted on identity tokens.
#[derive(Clone, Copy, Debug, PartialEq, Eq, Structural)]
pub enum RsAlgorithm {
    Rs256,
    Rs384,
    Rs512,
}

pub open spec fn algorithm_name(a: RsAlgorithm) -> Seq<char> {
    match a {
        RsAlgorithm::Rs256 => "RS256"@,
        RsAlgorithm::Rs384 => "RS384"@,
        RsAlgorithm::Rs512 => "RS512"@,
    }
}

impl RsAlgorithm {
    /// The scheme's name in a token header (`alg`).
    pub fn name(&self) -> (r: &'static str)
        ensures
            r@ == algorithm_name(*self),
    {
        match self {
            RsAlgorithm::Rs256 => "RS256",
            RsAlgorithm::Rs384 => "RS384",
            RsAlgorithm::Rs512 => "RS512",
        }
    }
}

/// A login that was begun and not yet completed.
#[derive(Debug)]
pub struct PendingLogin {
    pub token: String,
    pub created_at: Timestamp,
}

pub struct PendingView {
    pub token: Seq<char>,
    pub created_at: int,
}

impl View for PendingLogin {
    type V = PendingView;

    open spec fn view(&self) -> PendingView {
        PendingView { token: self.token@, created_at: self.created_at as int }
    }
}

/// A pending login is live while it is at most `ttl` old.
pub open spec fn live(p: PendingView, now: int, ttl: int) -> bool {
    now - p.created_at <= ttl
}

/// No two pending logins share a state token.
pub open spec fn tokens_unique(s: Seq<PendingView>) -> bool {
    forall|i: int, j: int| 0 <= i < s.len() && 0 <= j < s.len() && i != j ==> s[i].token != s[j].token
}

/// Dropping entries keeps the tokens unique.
pub proof fn lemma_filter_keeps_tokens_unique(s: Seq<PendingView>, keep: spec_fn(PendingView) -> bool)
    requires
        tokens_unique(s),
    ensures
        tokens_unique(s.filter(keep)),
    decreases s.len(),
{
    reveal(Seq::filter);
    if s.len() > 0 {
        let init = s.drop_last();
        assert(tokens_unique(init));
        lemma_filter_keeps_tokens_unique(init, keep);
        let f = init.filter(keep);
        if keep(s.last()) {
            let g = f.push(s.last());
            assert forall|i: int, j: int| 0 <= i < g.len() && 0 <= j < g.len() && i != j implies g[i].token != g[j].token by {
                if i < f.len() && j < f.len() {
                } else {
                    let k = if i < f.len() { i } else { j };
                    assert(f.contains(f[k]));
                    init.lemma_filter_contains_rev(keep, f[k]);
                    let m = choose|m: int| 0 <= m < init.len() && init[m] == f[k];
                    assert(s[m] == init[m]);
                    assert(s[s.len() - 1] == s.last());
                }
            }
        }
    }
}

/// The in-memory map of pending logins, keyed by their state token.
#[derive(Debug)]
pub struct PendingLogins {
    entries: Vec<PendingLogin>,
}

impl View for PendingLogins {
    type V = Seq<PendingView>;

    closed spec fn view(&self) -> Seq<PendingView> {
        self.entries@.map_values(|p: PendingLogin| p@)
    }
}

impl PendingLogins {
    pub open spec fn wf(&self) -> bool {
        tokens_unique(self@)
    }

    pub fn new() -> (r: PendingLogins)
        ensures
            r@ == Seq::<PendingView>::empty(),
            r.wf(),
    {
        let r = PendingLogins { entries: Vec::new() };
        assert(r@ =~= Seq::<PendingView>::empty());
        r
    }

    /// Keeps, in order, the entries under another token than `token`, or,
    /// without a token, the entries still live at `now`.
    fn retain_where(&mut self, token: Option<&String>, now: Timestamp, ttl: i64)
        ensures
            token matches Some(t) ==> final(self)@ == old(self)@.filter(|p: PendingView| p.token != t@),
            token is None ==> final(self)@ == old(self)@.filter(|p: PendingView| live(p, now as int, ttl as int)),
    {
        let ghost start = self@;
        let ghost keep = |p: PendingView|
            match token {
                Some(t) => p.token != t@,
                None => live(p, now as int, ttl as int),
            };
        let mut kept: Vec<PendingLogin> = Vec::new();
        let mut rest: Vec<PendingLogin> = Vec::new();
        std::mem::swap(&mut rest, &mut self.entries);
        let mut i: usize = 0;
        let ghost all = rest@;
        while i < rest.len()
            invariant
                i <= rest@.len(),
                rest@ == all,
                start == all.map_values(|p: PendingLogin| p@),
                kept@.map_values(|p: PendingLogin| p@) == start.take(i as int).filter(keep),
                keep == (|p: PendingView|
                    match token {
                        Some(t) => p.token != t@,
                        None => live(p, now as int, ttl as int),
                    }),
            decreases rest@.len() - i,
        {
            proof {
                reveal(Seq::filter);
                assert(start.take(i + 1).drop_last() =~= start.take(i as int));
                assert(start.take(i + 1).last() == rest@[i as int]@);
            }
            let p = &rest[i];
            let k = match token {
                Some(t) => !(p.token == *t),
                None => (now as i128 - p.created_at as i128) <= ttl as i128,
            };
            if k {
                let ghost before = kept@;
                let c = PendingLogin { token: p.token.clone(), created_at: p.created_at };
                kept.push(c);
                assert(kept@.map_values(|p: PendingLogin| p@) =~= before.map_values(|p: PendingLogin| p@).push(c@));
            }
            i += 1;
        }
        assert(start.take(start.len() as int) =~= start);
        self.entries = kept;
        assert(self@ == start.filter(keep));
        match token {
            Some(t) => {
                assert(keep == (|p: PendingView| p.token != t@));
            },
            None => {
                assert(keep == (|p: PendingView| live(p, now as int, ttl as int)));
            },
        }
    }

    /// Records a login begun at `now` under a fresh state `token`, replacing
    /// an entry under the same token.
    pub fn begin(&mut self, token: String, now: Timestamp)
        requires
            old(self).wf(),
        ensures
            final(self).wf(),
            final(self)@ == old(self)@.filter(|p: PendingView| p.token != token@).push(
                PendingView { token: token@, created_at: now as int },
            ),
    {
        let ghost start = self@;
        let ghost t = token@;
        self.retain_where(Some(&token), now, 0);
        let ghost kept = self@;
        proof {
            lemma_filter_keeps_tokens_unique(start, |p: PendingView| p.token != t);
        }
        let entry = PendingLogin { token, created_at: now };
        let ghost v = entry@;
        self.entries.push(entry);
        assert(self@ =~= kept.push(v));
        proof {
            assert forall|i: int| 0 <= i < kept.len() implies kept[i].token != t by {
                assert(kept.contains(kept[i]));
                start.lemma_filter_pred(|p: PendingView| p.token != t, i);
            }
        }
    }

    /// Completes the login that `token` names: the entry leaves the map, and
    /// the result says whether it was there and still live at `now`.
    pub fn complete(&mut self, token: &String, now: Timestamp, ttl: i64) -> (r: bool)
        requires
            old(self).wf(),
        ensures
            final(self).wf(),
            r == (exists|i: int|
                0 <= i < old(self)@.len() && old(self)@[i].token == token@ && live(
                    #[trigger] old(self)@[i],
                    now as int,
                    ttl as int,
                )),
            final(self)@ == old(self)@.filter(|p: PendingView| p.token != token@),
    {
        let ghost start = self@;
        let mut found = false;
        let mut i: usize = 0;
        while i < self.entries.len()
            invariant
                self@ == start,
                i <= start.len(),
                found == (exists|j: int| 0 <= j < i && start[j].token == token@ && live(#[trigger] start[j], now as int, ttl as int)),
            decreases start.len() - i,
        {
            let p = &self.entries[i];
            assert(start[i as int] == p@);
            if p.token == *token && (now as i128 - p.created_at as i128) <= ttl as i128 {
                found = true;
            }
            i += 1;
        }
        self.retain_where(Some(token), now, ttl);
        proof {
            lemma_filter_keeps_tokens_unique(start, |p: PendingView| p.token != token@);
        }
        found
    }

    /// Drops every login that is older than `ttl` at `now`.
    pub fn evict_expired(&mut self, now: Timestamp, ttl: i64)
        requires
            old(self).wf(),
        ensures
            final(self).wf(),
            final(self)@ == old(self)@.filter(|p: PendingView| live(p, now as int, ttl as int)),
    {
        let ghost start = self@;
        self.retain_where(None, now, ttl);
        proof {
            lemma_filter_keeps_tokens_unique(start, |p: PendingView| live(p, now as int, ttl as int));
        }
    }
}

} // verus!
