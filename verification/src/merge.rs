//! Voting over recommendation sources. Each source's candidates are
//! cleaned, then candidates naming the same song are grouped with their
//! ranks and sources, keeping the richest metadata. The weighted score and
//! the final order use floating point and are computed at the program's
//! edge from these groups.
use vstd::prelude::*;

use crate::recs::{
    clean_title, clean_title_spec, is_junk_spec, is_junk_version, song_key, song_key_spec,
    strip_artist_prefix, strip_artist_prefix_spec, ListenSeed, RecCandidate,
};
use crate::text::{chars_of, copy_str, str_eq, trim, trim_chars};

verus! {

/// How much metadata a candidate carries: a video id weighs most, then a
/// Deezer identity, artwork, and a duration.
pub open spec fn metadata_score_spec(c: RecCandidate) -> nat {
    (if c.video_id is Some { 8nat } else { 0 }) + (if c.provider is Some && c.provider.unwrap()@
        == "deezer"@ {
        4nat
    } else {
        0
    }) + (if c.artwork_url is Some { 2nat } else { 0 }) + (if c.duration_ms is Some { 1nat } else { 0 })
}

pub fn metadata_score(c: &RecCandidate) -> (r: u32)
    ensures
        r == metadata_score_spec(*c),
{
    let deezer = match &c.provider {
        Some(p) => str_eq(p.as_str(), "deezer"),
        None => false,
    };
    (if c.video_id.is_some() { 8 } else { 0 }) + (if deezer { 4 } else { 0 }) + (if c.artwork_url.is_some() {
        2
    } else {
        0
    }) + (if c.duration_ms.is_some() { 1 } else { 0 })
}

/// A candidate replaces another only with strictly more metadata.
pub fn better_metadata(new: &RecCandidate, old: &RecCandidate) -> (r: bool)
    ensures
        r == (metadata_score_spec(*new) > metadata_score_spec(*old)),
{
    metadata_score(new) > metadata_score(old)
}

fn copy_opt(o: &Option<String>) -> (r: Option<String>)
    ensures
        r == *o,
{
    match o {
        Some(s) => Some(s.clone()),
        None => None,
    }
}

pub fn copy_candidate(c: &RecCandidate) -> (r: RecCandidate)
    ensures
        r == *c,
{
    RecCandidate {
        artist: c.artist.clone(),
        title: c.title.clone(),
        album: copy_opt(&c.album),
        duration_ms: c.duration_ms,
        isrc: copy_opt(&c.isrc),
        artwork_url: copy_opt(&c.artwork_url),
        provider: copy_opt(&c.provider),
        provider_track_id: copy_opt(&c.provider_track_id),
        video_id: copy_opt(&c.video_id),
    }
}

/// A candidate's title after cleanup: video cruft dropped, then a leading
/// repeat of its artist.
pub open spec fn cleaned_title(c: RecCandidate) -> Seq<char> {
    strip_artist_prefix_spec(clean_title_spec(c.title@), c.artist@)
}

/// A candidate survives cleanup when it is not a junk version and its
/// cleaned title is not blank.
pub open spec fn survives(c: RecCandidate) -> bool {
    !is_junk_spec(c.title@) && trim(cleaned_title(c)).len() > 0
}

/// One source's candidates after cleanup, in order: junk versions and blank
/// titles dropped, titles cleaned.
pub open spec fn cleaned_spec(cands: Seq<RecCandidate>, out: Seq<RecCandidate>) -> bool {
    let kept = cands.filter(|c: RecCandidate| survives(c));
    &&& out.len() == kept.len()
    &&& forall|i: int|
        0 <= i < out.len() ==> #[trigger] out[i].title@ == cleaned_title(kept[i]) && out[i]
            == (RecCandidate { title: out[i].title, ..kept[i] })
}

#[verifier::spinoff_prover]
#[verifier::rlimit(40)]
pub fn clean_candidates(cands: &Vec<RecCandidate>) -> (r: Vec<RecCandidate>)
    ensures
        cleaned_spec(cands@, r@),
{
    let ghost pred = |c: RecCandidate| survives(c);
    let mut out: Vec<RecCandidate> = Vec::new();
    let mut i: usize = 0;
    while i < cands.len()
        invariant
            i <= cands@.len(),
            pred == (|c: RecCandidate| survives(c)),
            out@.len() == cands@.take(i as int).filter(pred).len(),
            forall|k: int|
                0 <= k < out@.len() ==> #[trigger] out@[k].title@ == cleaned_title(
                    cands@.take(i as int).filter(pred)[k],
                ) && out@[k] == (RecCandidate {
                    title: out@[k].title,
                    ..cands@.take(i as int).filter(pred)[k]
                }),
        decreases cands@.len() - i,
    {
        proof {
            assert(cands@.take(i + 1) =~= cands@.take(i as int).push(cands@[i as int]));
            cands@.take(i as int).lemma_filter_push(cands@[i as int], pred);
        }
        let c = &cands[i];
        let ghost o0 = out@;
        let ghost f0 = cands@.take(i as int).filter(pred);
        if !is_junk_version(c.title.as_str()) {
            let cleaned = clean_title(c.title.as_str());
            let title = strip_artist_prefix(cleaned.as_str(), c.artist.as_str());
            let t = trim_chars(chars_of(title.as_str()).as_slice());
            assert(title@ == cleaned_title(*c));
            if t.len() > 0 {
                let mut n = copy_candidate(c);
                n.title = title;
                assert(n == (RecCandidate { title: n.title, ..*c }));
                let ghost nv = n;
                out.push(n);
                proof {
                    assert(survives(*c));
                    assert(cands@.take(i + 1).filter(pred) == f0.push(*c));
                    assert forall|k: int| 0 <= k < out@.len() implies #[trigger] out@[k].title@ == cleaned_title(
                        cands@.take(i + 1).filter(pred)[k],
                    ) && out@[k] == (RecCandidate {
                        title: out@[k].title,
                        ..cands@.take(i + 1).filter(pred)[k]
                    }) by {
                        if k < o0.len() {
                            assert(out@[k] == o0[k]);
                            assert(cands@.take(i + 1).filter(pred)[k] == f0[k]);
                        } else {
                            assert(out@[k] == nv);
                            assert(cands@.take(i + 1).filter(pred)[k] == *c);
                        }
                    }
                }
            } else {
                assert(!survives(*c));
                assert(cands@.take(i + 1).filter(pred) == f0);
            }
        } else {
            assert(!survives(*c));
            assert(cands@.take(i + 1).filter(pred) == f0);
        }
        i += 1;
    }
    proof {
        assert(cands@.take(cands@.len() as int) =~= cands@);
    }
    out
}

/// Candidates of several sources that name one song.
#[derive(Debug, Clone)]
pub struct VoteGroup {
    pub key: String,
    pub candidate: RecCandidate,
    pub best_rank: usize,
    /// (source index, rank) of every vote, in the order cast.
    pub votes: Vec<(usize, usize)>,
}

/// The ghost picture of a group: key, candidate, best rank, votes.
pub type GroupView = (Seq<char>, RecCandidate, nat, Seq<(nat, nat)>);

pub open spec fn group_view(g: VoteGroup) -> GroupView {
    (g.key@, g.candidate, g.best_rank as nat, g.votes@.map_values(|v: (usize, usize)| (v.0 as nat, v.1 as nat)))
}

pub open spec fn groups_view(gs: Seq<VoteGroup>) -> Seq<GroupView> {
    gs.map_values(|g: VoteGroup| group_view(g))
}

pub open spec fn index_of_key(gs: Seq<GroupView>, key: Seq<char>) -> Option<int> {
    if exists|i: int| 0 <= i < gs.len() && gs[i].0 == key {
        Some(choose|i: int| 0 <= i < gs.len() && gs[i].0 == key)
    } else {
        None
    }
}

/// One vote: source `s` ranks candidate `c` at `r`. A `|` key (blank
/// artist and title) is ignored; a known song gains the vote, its best rank
/// drops to `r` if lower, and `c` replaces its candidate when richer; a new
/// song starts a group.
pub open spec fn cast_vote(gs: Seq<GroupView>, s: nat, r: nat, c: RecCandidate) -> Seq<GroupView> {
    let key = song_key_spec(c.artist@, c.title@);
    if key == "|"@ {
        gs
    } else {
        match index_of_key(gs, key) {
            Some(i) => {
                let g = gs[i];
                gs.update(
                    i,
                    (
                        g.0,
                        if metadata_score_spec(c) > metadata_score_spec(g.1) {
                            c
                        } else {
                            g.1
                        },
                        if r < g.2 {
                            r
                        } else {
                            g.2
                        },
                        g.3.push((s, r)),
                    ),
                )
            },
            None => gs.push((key, c, r, seq![(s, r)])),
        }
    }
}

/// Votes of one source's cleaned candidates, ranked by position.
pub open spec fn cast_source(gs: Seq<GroupView>, s: nat, cands: Seq<RecCandidate>, from: nat) -> Seq<GroupView>
    decreases cands.len() - from,
{
    if from >= cands.len() {
        gs
    } else {
        cast_source(cast_vote(gs, s, from, cands[from as int]), s, cands, from + 1)
    }
}

pub open spec fn keys_distinct(gs: Seq<GroupView>) -> bool {
    forall|i: int, j: int| 0 <= i < j < gs.len() ==> #[trigger] gs[i].0 != #[trigger] gs[j].0
}

fn copy_group(g: &VoteGroup) -> (r: VoteGroup)
    ensures
        group_view(r) == group_view(*g),
{
    let mut votes: Vec<(usize, usize)> = Vec::new();
    let mut i: usize = 0;
    while i < g.votes.len()
        invariant
            i <= g.votes@.len(),
            votes@ == g.votes@.take(i as int),
        decreases g.votes@.len() - i,
    {
        votes.push(g.votes[i]);
        proof {
            assert(votes@ =~= g.votes@.take(i + 1));
        }
        i += 1;
    }
    proof {
        assert(g.votes@.take(g.votes@.len() as int) =~= g.votes@);
    }
    VoteGroup {
        key: g.key.clone(),
        candidate: copy_candidate(&g.candidate),
        best_rank: g.best_rank,
        votes,
    }
}

impl VoteGroup {
    /// Record a vote from `source` at `rank` for `c`, which names this
    /// group's song.
    fn add_vote(&mut self, source: usize, rank: usize, c: &RecCandidate)
        ensures
            group_view(*final(self)) == ({
                let g = group_view(*old(self));
                (
                    g.0,
                    if metadata_score_spec(*c) > metadata_score_spec(g.1) {
                        *c
                    } else {
                        g.1
                    },
                    if (rank as nat) < g.2 {
                        rank as nat
                    } else {
                        g.2
                    },
                    g.3.push((source as nat, rank as nat)),
                )
            }),
    {
        if better_metadata(c, &self.candidate) {
            self.candidate = copy_candidate(c);
        }
        if rank < self.best_rank {
            self.best_rank = rank;
        }
        let ghost v0 = self.votes@;
        self.votes.push((source, rank));
        proof {
            assert(self.votes@.map_values(|v: (usize, usize)| (v.0 as nat, v.1 as nat)) =~= v0.map_values(
                |v: (usize, usize)| (v.0 as nat, v.1 as nat),
            ).push((source as nat, rank as nat)));
        }
    }
}

/// Add the votes of one source's cleaned candidates (source index
/// `source`, ranked by position) to the groups.
pub fn cast_votes(groups: &mut Vec<VoteGroup>, source: usize, cands: &Vec<RecCandidate>)
    requires
        keys_distinct(groups_view(old(groups)@)),
    ensures
        keys_distinct(groups_view(final(groups)@)),
        groups_view(final(groups)@) == cast_source(groups_view(old(groups)@), source as nat, cands@, 0),
{
    let ghost goal = cast_source(groups_view(groups@), source as nat, cands@, 0);
    let mut i: usize = 0;
    while i < cands.len()
        invariant
            i <= cands@.len(),
            keys_distinct(groups_view(groups@)),
            goal == cast_source(groups_view(groups@), source as nat, cands@, i as nat),
        decreases cands@.len() - i,
    {
        let c = &cands[i];
        let key = song_key(c.artist.as_str(), c.title.as_str());
        let ghost gv = groups_view(groups@);
        if !str_eq(key.as_str(), "|") {
            let mut j: usize = 0;
            while j < groups.len() && !str_eq(groups[j].key.as_str(), key.as_str())
                invariant
                    j <= groups@.len(),
                    gv == groups_view(groups@),
                    forall|m: int| 0 <= m < j ==> gv[m].0 != key@,
                decreases groups@.len() - j,
            {
                j += 1;
            }
            if j < groups.len() {
                proof {
                    assert(gv[j as int].0 == key@);
                    let k = choose|k: int| 0 <= k < gv.len() && gv[k].0 == key@;
                    if k != j {
                        if k < j {
                            assert(gv[k].0 != gv[j as int].0);
                        } else {
                            assert(gv[j as int].0 != gv[k].0);
                        }
                    }
                    assert(index_of_key(gv, key@) == Some(j as int));
                }
                let mut g = copy_group(&groups[j]);
                assert(group_view(g) == gv[j as int]);
                g.add_vote(source, i, c);
                let ghost gnew = group_view(g);
                let ghost g_before = groups@;
                groups.set(j, g);
                proof {
                    assert(groups@ == g_before.update(j as int, g));
                    assert(groups_view(groups@) =~= gv.update(j as int, gnew));
                    assert(groups_view(groups@) =~= cast_vote(gv, source as nat, i as nat, *c));
                    assert forall|a: int, b: int| 0 <= a < b < groups_view(groups@).len() implies #[trigger] groups_view(groups@)[a].0
                        != #[trigger] groups_view(groups@)[b].0 by {
                        assert(groups_view(groups@)[a].0 == gv[a].0);
                        assert(groups_view(groups@)[b].0 == gv[b].0);
                    }
                }
            } else {
                proof {
                    assert(index_of_key(gv, key@) is None);
                }
                let mut votes: Vec<(usize, usize)> = Vec::new();
                votes.push((source, i));
                let ng = VoteGroup { key, candidate: copy_candidate(c), best_rank: i, votes };
                assert(ng.votes@.map_values(|v: (usize, usize)| (v.0 as nat, v.1 as nat)) =~= seq![(source as nat, i as nat)]);
                assert(group_view(ng) == (key@, *c, i as nat, seq![(source as nat, i as nat)]));
                let ghost g_before = groups@;
                groups.push(ng);
                proof {
                    assert(groups@ == g_before.push(ng));
                    assert(groups_view(groups@) =~= gv.push(group_view(ng)));
                    assert(groups_view(groups@) =~= cast_vote(gv, source as nat, i as nat, *c));
                    assert forall|a: int, b: int| 0 <= a < b < groups_view(groups@).len() implies #[trigger] groups_view(groups@)[a].0
                        != #[trigger] groups_view(groups@)[b].0 by {
                        if b == gv.len() {
                            assert(groups_view(groups@)[a].0 == gv[a].0);
                        } else {
                            assert(groups_view(groups@)[a].0 == gv[a].0);
                            assert(groups_view(groups@)[b].0 == gv[b].0);
                        }
                    }
                }
            }
        } else {
            proof {
                reveal_strlit("|");
            }
        }
        i += 1;
    }
}

// ------------------------------------------------------ listen seeds

/// The first listen of each song (by song key), newest first as given, up
/// to `limit`.
pub open spec fn distinct_seeds_spec(
    rows: Seq<(String, String, Option<String>)>,
    seen: Seq<Seq<char>>,
    limit: nat,
) -> Seq<(Seq<char>, Seq<char>, Option<String>)>
    decreases rows.len(),
{
    if rows.len() == 0 || limit == 0 {
        Seq::empty()
    } else {
        let r = rows[0];
        let key = song_key_spec(r.0@, r.1@);
        if seen.contains(key) {
            distinct_seeds_spec(rows.drop_first(), seen, limit)
        } else {
            seq![(r.0@, r.1@, r.2)] + distinct_seeds_spec(rows.drop_first(), seen.push(key), (limit - 1) as nat)
        }
    }
}

proof fn lemma_distinct_seeds(rows: Seq<(String, String, Option<String>)>, seen: Seq<Seq<char>>, limit: nat)
    ensures
        distinct_seeds_spec(rows, seen, limit).len() <= limit,
        forall|i: int|
            0 <= i < distinct_seeds_spec(rows, seen, limit).len() ==> !seen.contains(
                song_key_spec(
                    #[trigger] distinct_seeds_spec(rows, seen, limit)[i].0,
                    distinct_seeds_spec(rows, seen, limit)[i].1,
                ),
            ),
        forall|i: int, j: int|
            0 <= i < j < distinct_seeds_spec(rows, seen, limit).len() ==> song_key_spec(
                #[trigger] distinct_seeds_spec(rows, seen, limit)[i].0,
                distinct_seeds_spec(rows, seen, limit)[i].1,
            ) != song_key_spec(
                #[trigger] distinct_seeds_spec(rows, seen, limit)[j].0,
                distinct_seeds_spec(rows, seen, limit)[j].1,
            ),
    decreases rows.len(),
{
    let out = distinct_seeds_spec(rows, seen, limit);
    if rows.len() == 0 || limit == 0 {
    } else {
        let r = rows[0];
        let key = song_key_spec(r.0@, r.1@);
        if seen.contains(key) {
            lemma_distinct_seeds(rows.drop_first(), seen, limit);
        } else {
            let s2 = seen.push(key);
            let rest = distinct_seeds_spec(rows.drop_first(), s2, (limit - 1) as nat);
            lemma_distinct_seeds(rows.drop_first(), s2, (limit - 1) as nat);
            assert(out == seq![(r.0@, r.1@, r.2)] + rest);
            assert forall|i: int| 0 <= i < out.len() implies !seen.contains(
                song_key_spec(#[trigger] out[i].0, out[i].1),
            ) by {
                if i > 0 {
                    assert(out[i] == rest[i - 1]);
                    if seen.contains(song_key_spec(out[i].0, out[i].1)) {
                        let k = choose|k: int| 0 <= k < seen.len() && seen[k] == song_key_spec(out[i].0, out[i].1);
                        assert(s2[k] == seen[k]);
                        assert(s2.contains(song_key_spec(rest[i - 1].0, rest[i - 1].1)));
                    }
                }
            }
            assert forall|i: int, j: int| 0 <= i < j < out.len() implies song_key_spec(
                #[trigger] out[i].0,
                out[i].1,
            ) != song_key_spec(#[trigger] out[j].0, out[j].1) by {
                assert(out[j] == rest[j - 1]);
                if i == 0 {
                    assert(s2[seen.len() as int] == key);
                    assert(!s2.contains(song_key_spec(rest[j - 1].0, rest[j - 1].1)));
                } else {
                    assert(out[i] == rest[i - 1]);
                }
            }
        }
    }
}

/// Listen seeds are one per song: for any listens and limit, at most
/// `limit` seeds come out and no two share a song key.
pub proof fn law_listen_seeds_distinct(rows: Seq<(String, String, Option<String>)>, limit: nat)
    ensures
        distinct_seeds_spec(rows, Seq::empty(), limit).len() <= limit,
        forall|i: int, j: int|
            0 <= i < j < distinct_seeds_spec(rows, Seq::empty(), limit).len() ==> song_key_spec(
                #[trigger] distinct_seeds_spec(rows, Seq::empty(), limit)[i].0,
                distinct_seeds_spec(rows, Seq::empty(), limit)[i].1,
            ) != song_key_spec(
                #[trigger] distinct_seeds_spec(rows, Seq::empty(), limit)[j].0,
                distinct_seeds_spec(rows, Seq::empty(), limit)[j].1,
            ),
{
    lemma_distinct_seeds(rows, Seq::empty(), limit);
}

pub open spec fn seeds_view(v: Seq<ListenSeed>) -> Seq<(Seq<char>, Seq<char>, Option<String>)> {
    v.map_values(|s: ListenSeed| (s.artist@, s.title@, s.subsonic_id))
}

/// Listen seeds from a user's listens (artist, title, library id), newest
/// first: one per song, at most `limit`.
pub fn distinct_listen_seeds(rows: Vec<(String, String, Option<String>)>, username: &str, limit: usize) -> (r:
    Vec<ListenSeed>)
    ensures
        seeds_view(r@) == distinct_seeds_spec(rows@, Seq::empty(), limit as nat),
        forall|i: int| 0 <= i < r@.len() ==> #[trigger] r@[i].username@ == username@,
{
    let mut seen: Vec<String> = Vec::new();
    let mut out: Vec<ListenSeed> = Vec::new();
    let mut remaining = limit;
    let ghost goal = distinct_seeds_spec(rows@, Seq::empty(), limit as nat);
    let mut i: usize = 0;
    proof {
        assert(rows@.subrange(0, rows@.len() as int) =~= rows@);
        assert(seen@.map_values(|s: String| s@) =~= Seq::<Seq<char>>::empty());
        assert(Seq::<(Seq<char>, Seq<char>, Option<String>)>::empty() + goal =~= goal);
    }
    while i < rows.len() && remaining > 0
        invariant
            i <= rows@.len(),
            goal == seeds_view(out@) + distinct_seeds_spec(
                rows@.subrange(i as int, rows@.len() as int),
                seen@.map_values(|s: String| s@),
                remaining as nat,
            ),
            forall|k: int| 0 <= k < out@.len() ==> #[trigger] out@[k].username@ == username@,
        decreases rows@.len() - i,
    {
        let ghost rest = rows@.subrange(i as int, rows@.len() as int);
        let ghost sv = seen@.map_values(|s: String| s@);
        proof {
            assert(rest[0] == rows@[i as int]);
            assert(rest.drop_first() =~= rows@.subrange(i + 1, rows@.len() as int));
        }
        let row = &rows[i];
        let key = song_key(row.0.as_str(), row.1.as_str());
        let mut found = false;
        let mut j: usize = 0;
        while j < seen.len() && !found
            invariant
                j <= seen@.len(),
                sv == seen@.map_values(|s: String| s@),
                !found ==> forall|m: int| 0 <= m < j ==> sv[m] != key@,
                found ==> sv.contains(key@),
            decreases seen@.len() - j,
        {
            if str_eq(seen[j].as_str(), key.as_str()) {
                found = true;
                assert(sv[j as int] == key@);
            }
            j += 1;
        }
        proof {
            if sv.contains(key@) && !found {
                let m = choose|m: int| 0 <= m < sv.len() && sv[m] == key@;
                assert(sv[m] != key@);
            }
        }
        if !found {
            let ghost o0 = out@;
            let ghost s0 = seen@;
            out.push(ListenSeed {
                username: copy_str(username),
                artist: row.0.clone(),
                title: row.1.clone(),
                subsonic_id: copy_opt(&row.2),
            });
            seen.push(key);
            proof {
                assert(seeds_view(out@) =~= seeds_view(o0).push((row.0@, row.1@, row.2)));
                assert(seen@.map_values(|s: String| s@) =~= s0.map_values(|s: String| s@).push(key@));
                assert(seeds_view(out@) + distinct_seeds_spec(rows@.subrange(i + 1, rows@.len() as int), seen@.map_values(|s: String| s@), (remaining - 1) as nat)
                    =~= seeds_view(o0) + (seq![(row.0@, row.1@, row.2)] + distinct_seeds_spec(rows@.subrange(i + 1, rows@.len() as int), seen@.map_values(|s: String| s@), (remaining - 1) as nat)));
            }
            remaining = remaining - 1;
        }
        i += 1;
    }
    proof {
        if i == rows@.len() {
            assert(rows@.subrange(i as int, rows@.len() as int) =~= Seq::<(String, String, Option<String>)>::empty());
        }
        assert(seeds_view(out@) + Seq::<(Seq<char>, Seq<char>, Option<String>)>::empty() =~= seeds_view(out@));
    }
    out
}

// ---------------------------------------------------------- freshness

/// A cached recommendation payload (or discovery list) is used while its
/// age is within the TTL; a zero TTL disables the cache.
pub fn rec_cache_fresh(ttl_hours: u32, fetched_at: i64, now: i64) -> (r: bool)
    requires
        i64::MIN <= now - fetched_at <= i64::MAX,
    ensures
        r == (ttl_hours != 0 && now - fetched_at <= ttl_hours * 3600),
{
    if ttl_hours == 0 {
        return false;
    }
    let age = now - fetched_at;
    !(age > (ttl_hours as i64) * 3600)
}

/// Recently shown keys are looked up only for a known user with a
/// cooldown; the cutoff is `now` minus the cooldown.
pub fn shown_cutoff(username: &str, cooldown_days: u32, now: i64) -> (r: Option<i64>)
    requires
        now - cooldown_days * 86400 >= i64::MIN,
    ensures
        (username@.len() == 0 || cooldown_days == 0) ==> r is None,
        !(username@.len() == 0 || cooldown_days == 0) ==> r == Some((now - cooldown_days * 86400) as i64),
{
    if chars_of(username).len() == 0 || cooldown_days == 0 {
        return None;
    }
    Some(now - (cooldown_days as i64) * 86400)
}

/// A listen is recorded for a known user with a non-blank artist and title.
pub fn should_record_listen(username: &str, artist: &str, title: &str) -> (r: bool)
    ensures
        r == (username@.len() > 0 && trim(artist@).len() > 0 && trim(title@).len() > 0),
{
    chars_of(username).len() > 0 && trim_chars(chars_of(artist).as_slice()).len() > 0 && trim_chars(
        chars_of(title).as_slice(),
    ).len() > 0
}

} // verus!
