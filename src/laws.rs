//! Properties of the store that relate several operations, proved over the same spec
//! functions that the operations' own contracts use.
use vstd::prelude::*;

use crate::models::{
    after_keyword_log, after_keywords, after_log, after_patch, attached, fresh_statistics,
    keyword_index, kept, lemma_keyword_index, patched, swept, swept_keyword, upserted,
    upserted_all, KeywordStat, KeywordView, Log, StatisticsView, UpdateKeywordStat,
};
use crate::store::{
    account_index, lemma_account_index, lemma_account_index_unique, lemma_touched, touched,
    unique_names, written,
};

verus! {

/// The store after `add_logs_to_stats(name, es[j], nows[j])` for each `j` in order.
pub open spec fn account_logs_applied(
    s: Seq<StatisticsView>,
    name: String,
    es: Seq<Log>,
    nows: Seq<String>,
) -> Seq<StatisticsView>
    decreases es.len(),
{
    if es.len() == 0 {
        s
    } else {
        written(
            account_logs_applied(s, name, es.drop_last(), nows.drop_last()),
            name,
            nows.last(),
            |a| after_log(a, es.last(), nows.last()),
        )
    }
}

/// A write to one account that keeps account names keeps names unique, and the
/// account stays where `touched` put it.
pub proof fn lemma_written(
    s: Seq<StatisticsView>,
    name: String,
    now: String,
    f: spec_fn(StatisticsView) -> StatisticsView,
)
    requires
        unique_names(s),
        forall|a: StatisticsView| #[trigger] f(a).main.account_name == a.main.account_name,
    ensures
        unique_names(written(s, name, now, f)),
        account_index(written(s, name, now, f), name@) == account_index(touched(s, name, now), name@),
        written(s, name, now, f).len() == touched(s, name, now).len(),
{
    lemma_touched(s, name, now);
    let t = touched(s, name, now);
    let i = account_index(t, name@);
    lemma_account_index(t, name@);
    let w = written(s, name, now, f);
    assert(f(t[i]).main.account_name == t[i].main.account_name);
    assert forall|a: int, b: int| 0 <= a < b < w.len() implies #[trigger] w[a].main.account_name@
        != #[trigger] w[b].main.account_name@ by {
        assert(t[a].main.account_name@ != t[b].main.account_name@);
    }
    lemma_account_index_unique(w, name@, i);
}

/// Logging to a new account: after `n` account logs, the account has counted `n` logs
/// and holds exactly those logs, in order.
pub proof fn law_account_log_count(s: Seq<StatisticsView>, name: String, es: Seq<Log>, nows: Seq<String>)
    requires
        unique_names(s),
        account_index(s, name@) < 0,
        es.len() == nows.len(),
        es.len() <= u64::MAX,
    ensures
        unique_names(account_logs_applied(s, name, es, nows)),
        es.len() > 0 ==> {
            let r = account_logs_applied(s, name, es, nows);
            let i = account_index(r, name@);
            &&& 0 <= i < r.len()
            &&& r[i].main.log_counts == es.len()
            &&& r[i].main.logs == es
            &&& r[i].main.logs.len() == r[i].main.log_counts
        },
    decreases es.len(),
{
    if es.len() > 0 {
        let prev = account_logs_applied(s, name, es.drop_last(), nows.drop_last());
        law_account_log_count(s, name, es.drop_last(), nows.drop_last());
        let f = |a: StatisticsView| after_log(a, es.last(), nows.last());
        lemma_written(prev, name, nows.last(), f);
        lemma_touched(prev, name, nows.last());
        let t = touched(prev, name, nows.last());
        let i = account_index(t, name@);
        lemma_account_index(t, name@);
        if es.len() == 1 {
            assert(prev == s);
            assert(i == s.len());
            assert(t[i] == fresh_statistics(name, nows.last()));
            assert(es =~= seq![es.last()]);
            assert(Seq::<Log>::empty().push(es.last()) =~= seq![es.last()]);
        } else {
            assert(t == prev);
            assert(es.drop_last().push(es.last()) =~= es);
        }
    }
}

/// `after` holds the newest `min(before.len(), n)` entries of `before`, in the order
/// they were appended.
pub open spec fn retains_newest(before: Seq<Log>, after: Seq<Log>, n: nat) -> bool {
    &&& after.len() <= n
    &&& after.len() == if before.len() <= n {
        before.len()
    } else {
        n
    }
    &&& after == before.subrange(before.len() - after.len(), before.len() as int)
}

/// A sweep with threshold `n` leaves at most `n` logs in every account and keyword,
/// and those are the newest ones, in the order they were appended.
pub proof fn law_sweep_keeps_newest(s: Seq<StatisticsView>, n: nat, now: String)
    ensures
        ({
            let r = s.map_values(|a: StatisticsView| swept(a, n, now));
            &&& r.len() == s.len()
            &&& forall|i: int|
                0 <= i < s.len() ==> retains_newest(s[i].main.logs, #[trigger] r[i].main.logs, n)
            &&& forall|i: int, k: int|
                0 <= i < s.len() && 0 <= k < s[i].keywords.len() ==> retains_newest(
                    #[trigger] s[i].keywords[k].logs,
                    r[i].keywords[k].logs,
                    n,
                )
        }),
{
    let r = s.map_values(|a: StatisticsView| swept(a, n, now));
    assert forall|i: int| 0 <= i < s.len() implies retains_newest(
        s[i].main.logs,
        #[trigger] r[i].main.logs,
        n,
    ) by {
        lemma_kept(s[i].main.logs, n);
    }
    assert forall|i: int, k: int| 0 <= i < s.len() && 0 <= k < s[i].keywords.len() implies retains_newest(
        #[trigger] s[i].keywords[k].logs,
        r[i].keywords[k].logs,
        n,
    ) by {
        lemma_kept(s[i].keywords[k].logs, n);
        assert(r[i].keywords[k] == swept_keyword(s[i].keywords[k], n, now));
    }
}

pub proof fn lemma_kept(logs: Seq<Log>, n: nat)
    ensures
        retains_newest(logs, kept(logs, n), n),
{
    if logs.len() <= n {
        assert(logs.subrange(0, logs.len() as int) =~= logs);
    }
}

/// Patching the keyword found by `keyword_index` with a value of the same id keeps it
/// the one found.
pub proof fn lemma_keyword_index_update(ks: Seq<KeywordView>, id: u64, x: KeywordView)
    requires
        keyword_index(ks, id) >= 0,
        x.stats.id == id,
    ensures
        keyword_index(ks.update(keyword_index(ks, id), x), id) == keyword_index(ks, id),
    decreases ks.len(),
{
    lemma_keyword_index(ks, id);
    let i = keyword_index(ks, id);
    let u = ks.update(i, x);
    if i != ks.len() - 1 {
        assert(u.last() == ks.last());
        assert(ks.last().stats.id != id);
        assert(u.drop_last() =~= ks.drop_last().update(i, x));
        lemma_keyword_index_update(ks.drop_last(), id, x);
    }
}

/// With no attached logs, applying the same keyword update twice is the same as
/// applying it once at the later time: the second application changes no field beyond
/// the update times.
pub proof fn law_upsert_idempotent(a: StatisticsView, p: UpdateKeywordStat, now1: String, now2: String)
    requires
        attached(p).len() == 0,
    ensures
        after_keywords(after_keywords(a, seq![p], now1), seq![p], now2) == after_keywords(
            a,
            seq![p],
            now2,
        ),
{
    let ks = a.keywords;
    assert(seq![p].drop_last() =~= Seq::<UpdateKeywordStat>::empty());
    assert(upserted_all(ks, seq![p].drop_last(), now1) == ks);
    assert(upserted_all(ks, seq![p].drop_last(), now2) == ks);
    let once = upserted(ks, p, now1);
    assert(upserted_all(once, seq![p].drop_last(), now2) == once);
    lemma_keyword_index(ks, p.id);
    let i = keyword_index(ks, p.id);
    if i >= 0 {
        lemma_keyword_index_update(ks, p.id, patched(ks[i], p, now1));
        assert(patched(patched(ks[i], p, now1), p, now2) =~= patched(ks[i], p, now2));
        assert(upserted(once, p, now2) =~= upserted(ks, p, now2));
    } else {
        assert(once.last().stats.id == p.id);
        assert(keyword_index(once, p.id) == ks.len());
        assert(patched(
            patched(crate::models::blank_keyword(p.id, now1), p, now1),
            p,
            now2,
        ) =~= patched(crate::models::blank_keyword(p.id, now2), p, now2));
        assert(upserted(once, p, now2) =~= upserted(ks, p, now2));
    }
}

/// Repeating a keyword update without attached logs, at the same time, leaves the store
/// as the first call left it.
pub proof fn law_set_keywords_repeat(
    s: Seq<StatisticsView>,
    name: String,
    p: UpdateKeywordStat,
    now: String,
)
    requires
        unique_names(s),
        attached(p).len() == 0,
    ensures
        ({
            let once = written(s, name, now, |a| after_keywords(a, seq![p], now));
            written(once, name, now, |a| after_keywords(a, seq![p], now)) == once
        }),
{
    let f = |a: StatisticsView| after_keywords(a, seq![p], now);
    let once = written(s, name, now, f);
    lemma_written(s, name, now, f);
    lemma_touched(s, name, now);
    let t = touched(s, name, now);
    let i = account_index(t, name@);
    lemma_account_index(t, name@);
    lemma_account_index(once, name@);
    assert(touched(once, name, now) == once);
    law_upsert_idempotent(t[i], p, now, now);
    assert(once.update(i, f(once[i])) =~= once);
}

/// A log for a keyword that an existing account does not have leaves the store as it
/// was.
pub proof fn law_unknown_keyword_log_no_op(
    s: Seq<StatisticsView>,
    name: String,
    id: u64,
    e: Log,
    now: String,
)
    requires
        unique_names(s),
        account_index(s, name@) >= 0,
        keyword_index(s[account_index(s, name@)].keywords, id) < 0,
    ensures
        written(s, name, now, |a| after_keyword_log(a, id, e, now)) == s,
{
    lemma_account_index(s, name@);
    let i = account_index(s, name@);
    assert(touched(s, name, now) == s);
    assert(s.update(i, s[i]) =~= s);
}

/// An update that carries no field.
pub open spec fn is_empty_patch(p: UpdateKeywordStat) -> bool {
    &&& p.name is None
    &&& p.keyword is None
    &&& p.placement is None
    &&& p.running is None
    &&& p.ads_running is None
    &&& p.ads_position is None
    &&& p.current_price is None
    &&& p.logs is None
    &&& p.is_max_price_reached is None
    &&& p.is_min_price_reached is None
    &&& p.max_expense_reached is None
}

/// An update with every field absent changes no keyword but the update time of the
/// keyword it names.
pub proof fn law_empty_patch_round_trip(a: StatisticsView, p: UpdateKeywordStat, now: String)
    requires
        is_empty_patch(p),
    ensures
        keyword_index(a.keywords, p.id) < 0 ==> after_patch(a, p, now) == a,
        keyword_index(a.keywords, p.id) >= 0 ==> after_patch(a, p, now).keywords == a.keywords.update(
            keyword_index(a.keywords, p.id),
            KeywordView {
                stats: KeywordStat {
                    last_updated_at: now,
                    ..a.keywords[keyword_index(a.keywords, p.id)].stats
                },
                logs: a.keywords[keyword_index(a.keywords, p.id)].logs,
            },
        ),
{
    let i = keyword_index(a.keywords, p.id);
    lemma_keyword_index(a.keywords, p.id);
    if i >= 0 {
        let k = a.keywords[i];
        assert(attached(p) =~= Seq::<Log>::empty());
        assert(k.logs + attached(p) =~= k.logs);
        assert(patched(k, p, now) =~= KeywordView {
            stats: KeywordStat { last_updated_at: now, ..k.stats },
            logs: k.logs,
        });
    }
}

} // verus!
