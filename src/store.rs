//! The statistics store: every account by name. Writes create an unknown account on the
//! fly; reads of an unknown account or keyword give an empty result. Locking is left to
//! the owner of the store, which holds it behind one reader/writer lock.
use vstd::prelude::*;

use crate::models::{
    after_delta, after_keyword_log, after_keywords, after_log, after_patch, clear_db,
    fresh_statistics, keyword_index, capped, dropped, keywords_dropped, lemma_capped_add, lemma_keyword_index, swept, upserted_all, Log, MainStats, Statistics,
    StatisticsView, UpdateKeywordStat, UpdateStat, KeywordStatistics,
};

verus! {

/// The position of the account `name` in `s`, or -1.
pub open spec fn account_index(s: Seq<StatisticsView>, name: Seq<char>) -> int
    decreases s.len(),
{
    if s.len() == 0 {
        -1
    } else if s.last().main.account_name@ == name {
        s.len() - 1
    } else {
        account_index(s.drop_last(), name)
    }
}

pub open spec fn unique_names(s: Seq<StatisticsView>) -> bool {
    forall|i: int, j: int|
        0 <= i < j < s.len() ==> #[trigger] s[i].main.account_name@
            != #[trigger] s[j].main.account_name@
}

/// `s` with the account `name` present: a new account started at `now` is added when
/// there is none.
pub open spec fn touched(s: Seq<StatisticsView>, name: String, now: String) -> Seq<StatisticsView> {
    if account_index(s, name@) >= 0 {
        s
    } else {
        s.push(fresh_statistics(name, now))
    }
}

/// `s` after the change `f` to the account `name`, which is created first if absent.
pub open spec fn written(
    s: Seq<StatisticsView>,
    name: String,
    now: String,
    f: spec_fn(StatisticsView) -> StatisticsView,
) -> Seq<StatisticsView> {
    let t = touched(s, name, now);
    let i = account_index(t, name@);
    t.update(i, f(t[i]))
}

/// How many logs, of accounts and of keywords, a sweep that keeps `n` drops from `s`.
pub open spec fn store_dropped(s: Seq<StatisticsView>, n: nat) -> nat
    decreases s.len(),
{
    if s.len() == 0 {
        0
    } else {
        store_dropped(s.drop_last(), n) + dropped(s.last().main.logs, n) + keywords_dropped(
            s.last().keywords,
            n,
        )
    }
}

/// The logs of keyword `id` of account `name`, empty when either is unknown.
pub open spec fn keyword_logs_of(s: Seq<StatisticsView>, name: Seq<char>, id: u64) -> Seq<Log> {
    let i = account_index(s, name);
    if i < 0 {
        Seq::empty()
    } else {
        let k = keyword_index(s[i].keywords, id);
        if k < 0 {
            Seq::empty()
        } else {
            s[i].keywords[k].logs
        }
    }
}

pub proof fn lemma_account_index(s: Seq<StatisticsView>, name: Seq<char>)
    ensures
        -1 <= account_index(s, name) < s.len(),
        account_index(s, name) >= 0 ==> s[account_index(s, name)].main.account_name@ == name,
        account_index(s, name) < 0 ==> forall|j: int|
            0 <= j < s.len() ==> s[j].main.account_name@ != name,
    decreases s.len(),
{
    if s.len() > 0 {
        lemma_account_index(s.drop_last(), name);
        if s.last().main.account_name@ != name {
            assert forall|j: int| 0 <= j < s.len() - 1 implies s[j] == s.drop_last()[j] by {}
        }
    }
}

/// With unique names, the account found is the one that bears the name.
pub proof fn lemma_account_index_unique(s: Seq<StatisticsView>, name: Seq<char>, i: int)
    requires
        unique_names(s),
        0 <= i < s.len(),
        s[i].main.account_name@ == name,
    ensures
        account_index(s, name) == i,
{
    lemma_account_index(s, name);
    let k = account_index(s, name);
    if k != i {
        if k < i {
            assert(s[k].main.account_name@ != s[i].main.account_name@);
        } else if k > i {
            assert(s[i].main.account_name@ != s[k].main.account_name@);
        }
    }
}

/// `touched` adds at most the one account, at the end, and leaves the others in place.
pub proof fn lemma_touched(s: Seq<StatisticsView>, name: String, now: String)
    requires
        unique_names(s),
    ensures
        unique_names(touched(s, name, now)),
        account_index(touched(s, name, now), name@) >= 0,
        account_index(s, name@) >= 0 ==> account_index(touched(s, name, now), name@)
            == account_index(s, name@),
        account_index(s, name@) < 0 ==> account_index(touched(s, name, now), name@) == s.len(),
{
    lemma_account_index(s, name@);
    let t = touched(s, name, now);
    if account_index(s, name@) < 0 {
        assert(t.drop_last() == s);
        assert forall|i: int, j: int| 0 <= i < j < t.len() implies #[trigger] t[i].main.account_name@
            != #[trigger] t[j].main.account_name@ by {
            if j < s.len() {
                assert(s[i].main.account_name@ != s[j].main.account_name@);
            }
        }
    }
}

/// All accounts, by name.
pub struct StatsStore {
    pub accounts: Vec<Statistics>,
}

impl View for StatsStore {
    type V = Seq<StatisticsView>;

    open spec fn view(&self) -> Seq<StatisticsView> {
        self.accounts@.map_values(|a: Statistics| a@)
    }
}

impl StatsStore {
    /// Account names are unique and each account is well formed.
    pub open spec fn wf(&self) -> bool {
        &&& unique_names(self@)
        &&& forall|i: int| 0 <= i < self.accounts@.len() ==> #[trigger] self.accounts@[i].wf()
    }

    /// An empty store.
    pub fn new() -> (r: StatsStore)
        ensures
            r.wf(),
            r@ == Seq::<StatisticsView>::empty(),
    {
        let r = StatsStore { accounts: Vec::new() };
        assert(r@ =~= Seq::<StatisticsView>::empty());
        r
    }

    fn find_account(&self, name: &String) -> (r: Option<usize>)
        ensures
            match r {
                Some(i) => i == account_index(self@, name@),
                None => account_index(self@, name@) < 0,
            },
    {
        let ghost s = self@;
        let mut i: usize = self.accounts.len();
        assert(s.subrange(0, i as int) == s);
        while i > 0
            invariant
                i <= s.len(),
                s == self@,
                account_index(s, name@) == account_index(s.subrange(0, i as int), name@),
            decreases i,
        {
            let ghost sub = s.subrange(0, i as int);
            assert(sub.drop_last() == s.subrange(0, i - 1));
            assert(sub.last() == self.accounts@[i - 1]@);
            if self.accounts[i - 1].main_stats.account_name == *name {
                return Some(i - 1);
            }
            i -= 1;
        }
        None
    }

    /// The position of the account `name`, which is created at `now` if absent.
    fn slot(&mut self, name: String, now: &String) -> (i: usize)
        requires
            old(self).wf(),
        ensures
            final(self).wf(),
            final(self)@ == touched(old(self)@, name, *now),
            i == account_index(final(self)@, name@),
            i < final(self)@.len(),
    {
        proof {
            lemma_touched(self@, name, *now);
            lemma_account_index(self@, name@);
        }
        match self.find_account(&name) {
            Some(i) => i,
            None => {
                let ghost s = self@;
                let ghost n = name;
                let i = self.accounts.len();
                self.accounts.push(Statistics::new(name, now));
                assert(self@ =~= s.push(fresh_statistics(n, *now)));
                i
            },
        }
    }

    /// The names of all accounts.
    pub fn list_accounts(&self) -> (r: Vec<String>)
        ensures
            r@.len() == self@.len(),
            forall|i: int| 0 <= i < r@.len() ==> #[trigger] r@[i] == self@[i].main.account_name,
    {
        let mut out: Vec<String> = Vec::new();
        let mut i: usize = 0;
        while i < self.accounts.len()
            invariant
                i <= self@.len(),
                out@.len() == i,
                forall|j: int| 0 <= j < i ==> #[trigger] out@[j] == self@[j].main.account_name,
            decreases self@.len() - i,
        {
            out.push(self.accounts[i].main_stats.account_name.clone());
            i += 1;
        }
        out
    }

    /// A copy of the account statistics of `account`, or `None` for an unknown account.
    pub fn get_main_stats(&self, account: &String) -> (r: Option<MainStats>)
        ensures
            account_index(self@, account@) < 0 ==> r is None,
            account_index(self@, account@) >= 0 ==> r is Some && r->0@ == self@[account_index(
                self@,
                account@,
            )].main,
    {
        match self.find_account(account) {
            Some(i) => {
                proof {
                    lemma_account_index(self@, account@);
                }
                Some(self.accounts[i].main_stats.copy())
            },
            None => None,
        }
    }

    /// A copy of the logs of keyword `keyword_id` of `account`; empty when either is
    /// unknown.
    pub fn get_keyword_logs(&self, account: &String, keyword_id: u64) -> (r: Vec<Log>)
        ensures
            r@ == keyword_logs_of(self@, account@, keyword_id),
    {
        proof {
            lemma_account_index(self@, account@);
        }
        match self.find_account(account) {
            Some(i) => match self.accounts[i].find_keyword(keyword_id) {
                Some(k) => {
                    proof {
                        lemma_keyword_index(self@[i as int].keywords, keyword_id);
                    }
                    crate::models::copy_logs(&self.accounts[i].keyword_stats[k].keyword_logs)
                },
                None => Vec::new(),
            },
            None => Vec::new(),
        }
    }

    /// Applies a counter change to `account`, created if absent, and returns a copy of
    /// its statistics afterwards.
    pub fn update_stats(&mut self, account: String, req: &UpdateStat, now: &String) -> (r: MainStats)
        requires
            old(self).wf(),
        ensures
            final(self).wf(),
            final(self)@ == written(old(self)@, account, *now, |a| after_delta(a, *req, *now)),
            r@ == final(self)@[account_index(final(self)@, account@)].main,
    {
        let ghost name = account;
        let i = self.slot(account, now);
        let ghost t = self@;
        let ghost items = self.accounts@;
        self.accounts[i].apply_delta(req, now);
        assert(self@ =~= t.update(i as int, after_delta(t[i as int], *req, *now)));
        proof {
            lemma_account_index(t, name@);
            self.lemma_one_changed(items, i as int);
            lemma_account_index_unique(self@, name@, i as int);
        }
        self.accounts[i].main_stats.copy()
    }

    /// Appends a log of `account` itself, created if absent, and counts it.
    pub fn add_logs_to_stats(&mut self, account: String, req: Log, now: &String)
        requires
            old(self).wf(),
        ensures
            final(self).wf(),
            final(self)@ == written(old(self)@, account, *now, |a| after_log(a, req, *now)),
    {
        let i = self.slot(account, now);
        let ghost t = self@;
        let ghost items = self.accounts@;
        let ghost e = req;
        self.accounts[i].add_log(req, now);
        assert(self@ =~= t.update(i as int, after_log(t[i as int], e, *now)));
        proof {
            self.lemma_one_changed(items, i as int);
        }
    }

    /// Applies keyword updates to `account`, created if absent, in the order given.
    pub fn set_keywords_to_stats(
        &mut self,
        account: String,
        input: Vec<UpdateKeywordStat>,
        now: &String,
    )
        requires
            old(self).wf(),
        ensures
            final(self).wf(),
            final(self)@ == written(
                old(self)@,
                account,
                *now,
                |a| after_keywords(a, input@, *now),
            ),
    {
        let ghost name = account;
        let i = self.slot(account, now);
        let ghost t = self@;
        let ghost items = self.accounts@;
        self.accounts[i].set_keywords(&input, now);
        assert(self@ =~= t.update(i as int, after_keywords(t[i as int], input@, *now)));
        proof {
            self.lemma_one_changed(items, i as int);
        }
    }

    /// Records a log of keyword `id` of `account`, created if absent. Nothing else
    /// changes when the account has no such keyword.
    pub fn add_logs_to_keyword(&mut self, account: String, id: u64, input: Log, now: &String)
        requires
            old(self).wf(),
        ensures
            final(self).wf(),
            final(self)@ == written(
                old(self)@,
                account,
                *now,
                |a| after_keyword_log(a, id, input, *now),
            ),
    {
        let i = self.slot(account, now);
        let ghost t = self@;
        let ghost items = self.accounts@;
        let ghost e = input;
        KeywordStatistics::add_logs(&mut self.accounts[i], id, input, now);
        assert(self@ =~= t.update(i as int, after_keyword_log(t[i as int], id, e, *now)));
        proof {
            self.lemma_one_changed(items, i as int);
        }
    }

    /// Applies an update to an existing keyword of an existing account; nothing changes
    /// when either is unknown.
    pub fn update_keyword_stat(&mut self, account: &String, input: &UpdateKeywordStat, now: &String)
        requires
            old(self).wf(),
        ensures
            final(self).wf(),
            account_index(old(self)@, account@) < 0 ==> final(self)@ == old(self)@,
            account_index(old(self)@, account@) >= 0 ==> final(self)@ == old(self)@.update(
                account_index(old(self)@, account@),
                after_patch(old(self)@[account_index(old(self)@, account@)], *input, *now),
            ),
    {
        let ghost t = self@;
        let ghost items = self.accounts@;
        proof {
            lemma_account_index(t, account@);
        }
        if let Some(i) = self.find_account(account) {
            proof {
                lemma_keyword_index(t[i as int].keywords, input.id);
            }
            if self.accounts[i].find_keyword(input.id).is_some() {
                let ghost ks = t[i as int].keywords;
                assert(seq![*input].drop_last() =~= Seq::<UpdateKeywordStat>::empty());
                assert(upserted_all(ks, seq![*input].drop_last(), *now) == ks);
                KeywordStatistics::update(&mut self.accounts[i], input, now);
                assert(self@[i as int] == after_patch(t[i as int], *input, *now));
                assert(self@ =~= t.update(i as int, after_patch(t[i as int], *input, *now)));
                proof {
                    self.lemma_one_changed(items, i as int);
                }
            } else {
                assert(t.update(i as int, after_patch(t[i as int], *input, *now)) =~= t);
            }
        }
    }

    /// Replaces the statistics of `account` with those of a new account started at
    /// `now`, dropping its keywords and logs; an unknown account is created.
    pub fn clear_log(&mut self, account: String, now: &String)
        requires
            old(self).wf(),
        ensures
            final(self).wf(),
            final(self)@ == written(old(self)@, account, *now, |a| fresh_statistics(account, *now)),
    {
        let ghost name = account;
        let fresh = Statistics::new(account.clone(), now);
        let i = self.slot(account, now);
        let ghost t = self@;
        let ghost items = self.accounts@;
        proof {
            lemma_account_index(t, name@);
        }
        self.accounts[i] = fresh;
        assert(self@ =~= t.update(i as int, fresh_statistics(name, *now)));
        proof {
            self.lemma_one_changed(items, i as int);
        }
    }

    /// The retention sweep over every account: keeps the newest `count` logs of each
    /// account and keyword, and with `count == 0` also zeroes their counters. Returns how
    /// many logs it dropped, capped at `u64::MAX`.
    pub fn sweep(&mut self, count: usize, now: &String) -> (r: u64)
        requires
            old(self).wf(),
        ensures
            final(self).wf(),
            final(self)@ == old(self)@.map_values(|a: StatisticsView| swept(a, count as nat, *now)),
            r == capped(store_dropped(old(self)@, count as nat)),
    {
        let ghost s = self@;
        let mut total: u64 = 0;
        assert(s.subrange(0, 0) =~= Seq::<StatisticsView>::empty());
        let mut i: usize = 0;
        while i < self.accounts.len()
            invariant
                i <= s.len(),
                self.accounts@.len() == s.len(),
                forall|j: int| 0 <= j < s.len() ==> #[trigger] self.accounts@[j].wf(),
                forall|j: int| 0 <= j < i ==> #[trigger] self@[j] == swept(s[j], count as nat, *now),
                forall|j: int| i <= j < s.len() ==> #[trigger] self@[j] == s[j],
                unique_names(s),
                total == capped(store_dropped(s.subrange(0, i as int), count as nat)),
            decreases s.len() - i,
        {
            let ghost before = self@;
            assert(before[i as int] == s[i as int]);
            let (main_dropped, keyword_dropped) = clear_db(&mut self.accounts[i], count, now);
            proof {
                let done = s.subrange(0, i as int);
                let a = s[i as int];
                assert(s.subrange(0, i + 1).drop_last() =~= done);
                lemma_capped_add(store_dropped(done, count as nat), dropped(a.main.logs, count as nat));
                lemma_capped_add(
                    store_dropped(done, count as nat) + dropped(a.main.logs, count as nat),
                    keywords_dropped(a.keywords, count as nat),
                );
            }
            total = total.saturating_add(main_dropped).saturating_add(keyword_dropped);
            assert(self.accounts@[i as int]@ == swept(s[i as int], count as nat, *now));
            assert(self@ =~= before.update(i as int, swept(s[i as int], count as nat, *now)));
            i += 1;
        }
        assert(self@ =~= s.map_values(|a: StatisticsView| swept(a, count as nat, *now)));
        assert(s.subrange(0, s.len() as int) =~= s);
        assert(unique_names(self@)) by {
            assert forall|a: int, b: int| 0 <= a < b < self@.len() implies
                #[trigger] self@[a].main.account_name@ != #[trigger] self@[b].main.account_name@ by {
                assert(s[a].main.account_name@ != s[b].main.account_name@);
            }
        }
        total
    }

    /// A change to one well-formed account that keeps its name keeps the store well
    /// formed.
    proof fn lemma_one_changed(&self, items: Seq<Statistics>, i: int)
        requires
            unique_names(items.map_values(|a: Statistics| a@)),
            forall|j: int| 0 <= j < items.len() ==> #[trigger] items[j].wf(),
            0 <= i < items.len(),
            self.accounts@.len() == items.len(),
            self.accounts@[i].wf(),
            self.accounts@[i].main_stats.account_name@ == items[i].main_stats.account_name@,
            forall|j: int| 0 <= j < items.len() && j != i ==> #[trigger] self.accounts@[j] == items[j],
        ensures
            self.wf(),
    {
        let t = items.map_values(|a: Statistics| a@);
        assert forall|a: int, b: int| 0 <= a < b < self@.len() implies
            #[trigger] self@[a].main.account_name@ != #[trigger] self@[b].main.account_name@ by {
            assert(t[a].main.account_name@ != t[b].main.account_name@);
        }
        assert forall|j: int| 0 <= j < self.accounts@.len() implies #[trigger] self.accounts@[j].wf() by {
            if j != i {
                assert(items[j].wf());
            }
        }
    }

}

} // verus!
