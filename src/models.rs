//! The statistics of one account: its counters and logs, and the statistics of each of
//! its keywords, with the merge rules that incoming updates follow.
//!
//! Counters saturate at `u64::MAX` rather than wrap or fail: an update is never rejected.
use vstd::prelude::*;
use vstd::string::StrSliceExecFns;

verus! {

/// One log line reported by a worker. `kind` is free-form; `"error"` marks an error.
/// `meta` holds an optional JSON document as text, carried without being read.
#[derive(Clone, Debug, PartialEq, Eq)]
pub struct Log {
    pub kind: String,
    pub time: String,
    pub message: String,
    pub meta: Option<String>,
}

/// The top-level counters and logs of one account.
#[derive(Clone, Debug)]
pub struct MainStats {
    pub account_name: String,
    /// Errors of the account and of its keywords.
    pub error_counts: u64,
    /// Logs counted so far; trimming the logs does not lower it.
    pub log_counts: u64,
    pub running: bool,
    /// API calls reported by the worker.
    pub no_api_calls: u64,
    /// API calls made on the worker's behalf.
    pub no_internal_api_calls: u64,
    pub started_at: String,
    pub last_updated_at: String,
    pub logs: Vec<Log>,
}

/// The counters and optional attributes of one keyword. `current_price` holds the
/// IEEE-754 bit pattern of the price.
#[derive(Clone, Debug, PartialEq, Eq)]
pub struct KeywordStat {
    pub id: u64,
    pub last_updated_at: String,
    pub error_counts: u64,
    pub log_counts: u64,
    pub name: Option<String>,
    pub keyword: Option<String>,
    pub placement: Option<u64>,
    pub running: Option<bool>,
    pub ads_running: Option<bool>,
    pub ads_position: Option<u64>,
    pub current_price: Option<u64>,
    pub is_max_price_reached: Option<bool>,
    pub is_min_price_reached: Option<bool>,
    pub max_expense_reached: Option<bool>,
}

/// One keyword of an account: its counters and its logs.
#[derive(Clone, Debug)]
pub struct KeywordStatistics {
    pub stats: KeywordStat,
    pub keyword_logs: Vec<Log>,
}

/// Everything known of one account.
#[derive(Clone, Debug)]
pub struct Statistics {
    pub main_stats: MainStats,
    pub keyword_stats: Vec<KeywordStatistics>,
}

/// A change to the counters of an account; absent fields change nothing.
#[derive(Clone, Debug)]
pub struct UpdateStat {
    /// Added to the error count.
    pub error_counts: Option<u64>,
    /// Replaces the running flag.
    pub running: Option<bool>,
    /// Added to the API call count.
    pub no_of_api_call_diff: Option<u64>,
}

/// A partial update of one keyword: present fields overwrite, absent ones are kept, and
/// attached logs are appended. `error_counts` is part of the input shape but the
/// keyword's error count moves only with logged errors. `current_price` holds the
/// IEEE-754 bit pattern of the price.
#[derive(Clone, Debug)]
pub struct UpdateKeywordStat {
    pub id: u64,
    pub name: Option<String>,
    pub current_price: Option<u64>,
    pub keyword: Option<String>,
    pub placement: Option<u64>,
    pub running: Option<bool>,
    pub error_counts: Option<u64>,
    pub ads_running: Option<bool>,
    pub ads_position: Option<u64>,
    pub logs: Option<Vec<Log>>,
    pub is_max_price_reached: Option<bool>,
    pub is_min_price_reached: Option<bool>,
    pub max_expense_reached: Option<bool>,
}

pub struct MainStatsView {
    pub account_name: String,
    pub error_counts: u64,
    pub log_counts: u64,
    pub running: bool,
    pub no_api_calls: u64,
    pub no_internal_api_calls: u64,
    pub started_at: String,
    pub last_updated_at: String,
    pub logs: Seq<Log>,
}

pub struct KeywordView {
    pub stats: KeywordStat,
    pub logs: Seq<Log>,
}

pub struct StatisticsView {
    pub main: MainStatsView,
    pub keywords: Seq<KeywordView>,
}

impl View for MainStats {
    type V = MainStatsView;

    open spec fn view(&self) -> MainStatsView {
        MainStatsView {
            account_name: self.account_name,
            error_counts: self.error_counts,
            log_counts: self.log_counts,
            running: self.running,
            no_api_calls: self.no_api_calls,
            no_internal_api_calls: self.no_internal_api_calls,
            started_at: self.started_at,
            last_updated_at: self.last_updated_at,
            logs: self.logs@,
        }
    }
}

impl View for KeywordStatistics {
    type V = KeywordView;

    open spec fn view(&self) -> KeywordView {
        KeywordView { stats: self.stats, logs: self.keyword_logs@ }
    }
}

impl View for Statistics {
    type V = StatisticsView;

    open spec fn view(&self) -> StatisticsView {
        StatisticsView {
            main: self.main_stats@,
            keywords: self.keyword_stats@.map_values(|k: KeywordStatistics| k@),
        }
    }
}

impl Log {
    pub open spec fn is_error(&self) -> bool {
        self.kind@ == seq!['e', 'r', 'r', 'o', 'r']
    }

    /// Whether this log reports an error.
    pub fn is_error_log(&self) -> (r: bool)
        ensures
            r == self.is_error(),
    {
        let k = self.kind.as_str();
        if k.unicode_len() != 5 {
            return false;
        }
        let r = k.get_char(0) == 'e' && k.get_char(1) == 'r' && k.get_char(2) == 'r'
            && k.get_char(3) == 'o' && k.get_char(4) == 'r';
        assert(r ==> k@ =~= seq!['e', 'r', 'r', 'o', 'r']);
        r
    }

    /// A copy of this log.
    pub fn copy(&self) -> (r: Log)
        ensures
            r == *self,
    {
        Log {
            kind: self.kind.clone(),
            time: self.time.clone(),
            message: self.message.clone(),
            meta: match &self.meta {
                Some(m) => Some(m.clone()),
                None => None,
            },
        }
    }
}

/// A copy of a sequence of logs.
pub fn copy_logs(v: &Vec<Log>) -> (r: Vec<Log>)
    ensures
        r@ == v@,
{
    let mut out: Vec<Log> = Vec::new();
    let mut i: usize = 0;
    while i < v.len()
        invariant
            i <= v@.len(),
            out@ == v@.subrange(0, i as int),
        decreases v@.len() - i,
    {
        out.push(v[i].copy());
        i += 1;
    }
    assert(out@ =~= v@);
    out
}

fn copy_text(s: &Option<String>) -> (r: Option<String>)
    ensures
        r == *s,
{
    match s {
        Some(t) => Some(t.clone()),
        None => None,
    }
}

/// `n` plus one when `e` reports an error.
pub open spec fn error_bump(n: u64, e: Log) -> u64 {
    if e.is_error() {
        n.saturating_add(1)
    } else {
        n
    }
}

/// `new` where it is present, else `current`.
pub open spec fn merged<T>(current: Option<T>, new: Option<T>) -> Option<T> {
    match new {
        Some(v) => Some(v),
        None => current,
    }
}

/// The logs attached to a keyword update.
pub open spec fn attached(p: UpdateKeywordStat) -> Seq<Log> {
    match p.logs {
        Some(v) => v@,
        None => Seq::empty(),
    }
}

/// A new account: zero counters, no logs, no keywords, started and updated at `now`.
pub open spec fn blank_main(name: String, now: String) -> MainStatsView {
    MainStatsView {
        account_name: name,
        error_counts: 0,
        log_counts: 0,
        running: false,
        no_api_calls: 0,
        no_internal_api_calls: 0,
        started_at: now,
        last_updated_at: now,
        logs: Seq::empty(),
    }
}

pub open spec fn fresh_statistics(name: String, now: String) -> StatisticsView {
    StatisticsView { main: blank_main(name, now), keywords: Seq::empty() }
}

/// A new keyword: zero counters, no attributes, no logs.
pub open spec fn blank_keyword(id: u64, now: String) -> KeywordView {
    KeywordView {
        stats: KeywordStat {
            id,
            last_updated_at: now,
            error_counts: 0,
            log_counts: 0,
            name: None,
            keyword: None,
            placement: None,
            running: None,
            ads_running: None,
            ads_position: None,
            current_price: None,
            is_max_price_reached: None,
            is_min_price_reached: None,
            max_expense_reached: None,
        },
        logs: Seq::empty(),
    }
}

/// The attributes of `k` with the fields present in `p` written over them.
pub open spec fn patched_stat(k: KeywordStat, p: UpdateKeywordStat, now: String) -> KeywordStat {
    KeywordStat {
        id: k.id,
        last_updated_at: now,
        error_counts: k.error_counts,
        log_counts: k.log_counts.saturating_add(attached(p).len() as u64),
        name: merged(k.name, p.name),
        keyword: merged(k.keyword, p.keyword),
        placement: merged(k.placement, p.placement),
        running: merged(k.running, p.running),
        ads_running: merged(k.ads_running, p.ads_running),
        ads_position: merged(k.ads_position, p.ads_position),
        current_price: merged(k.current_price, p.current_price),
        is_max_price_reached: merged(k.is_max_price_reached, p.is_max_price_reached),
        is_min_price_reached: merged(k.is_min_price_reached, p.is_min_price_reached),
        max_expense_reached: merged(k.max_expense_reached, p.max_expense_reached),
    }
}

/// `k` after the update `p`: present fields overwrite, attached logs are appended and
/// counted.
pub open spec fn patched(k: KeywordView, p: UpdateKeywordStat, now: String) -> KeywordView {
    KeywordView { stats: patched_stat(k.stats, p, now), logs: k.logs + attached(p) }
}

/// The position of the keyword `id` in `ks`, or -1.
pub open spec fn keyword_index(ks: Seq<KeywordView>, id: u64) -> int
    decreases ks.len(),
{
    if ks.len() == 0 {
        -1
    } else if ks.last().stats.id == id {
        ks.len() - 1
    } else {
        keyword_index(ks.drop_last(), id)
    }
}

pub open spec fn unique_ids(ks: Seq<KeywordView>) -> bool {
    forall|i: int, j: int|
        0 <= i < j < ks.len() ==> #[trigger] ks[i].stats.id != #[trigger] ks[j].stats.id
}

/// `ks` after the update `p`: the keyword `p.id` is patched, or created and patched.
pub open spec fn upserted(ks: Seq<KeywordView>, p: UpdateKeywordStat, now: String) -> Seq<
    KeywordView,
> {
    let i = keyword_index(ks, p.id);
    if i >= 0 {
        ks.update(i, patched(ks[i], p, now))
    } else {
        ks.push(patched(blank_keyword(p.id, now), p, now))
    }
}

/// `ks` after the updates `ps`, in order.
pub open spec fn upserted_all(ks: Seq<KeywordView>, ps: Seq<UpdateKeywordStat>, now: String) -> Seq<
    KeywordView,
>
    decreases ps.len(),
{
    if ps.len() == 0 {
        ks
    } else {
        upserted(upserted_all(ks, ps.drop_last(), now), ps.last(), now)
    }
}

/// `a` after the counter change `d`.
pub open spec fn after_delta(a: StatisticsView, d: UpdateStat, now: String) -> StatisticsView {
    StatisticsView {
        main: MainStatsView {
            error_counts: match d.error_counts {
                Some(x) => a.main.error_counts.saturating_add(x),
                None => a.main.error_counts,
            },
            running: match d.running {
                Some(r) => r,
                None => a.main.running,
            },
            no_api_calls: match d.no_of_api_call_diff {
                Some(x) => a.main.no_api_calls.saturating_add(x),
                None => a.main.no_api_calls,
            },
            last_updated_at: now,
            ..a.main
        },
        ..a
    }
}

/// `a` after the account log `e`.
pub open spec fn after_log(a: StatisticsView, e: Log, now: String) -> StatisticsView {
    StatisticsView {
        main: MainStatsView {
            error_counts: error_bump(a.main.error_counts, e),
            log_counts: a.main.log_counts.saturating_add(1),
            last_updated_at: now,
            logs: a.main.logs.push(e),
            ..a.main
        },
        ..a
    }
}

/// `a` after the keyword updates `ps`.
pub open spec fn after_keywords(a: StatisticsView, ps: Seq<UpdateKeywordStat>, now: String) -> StatisticsView {
    StatisticsView {
        main: MainStatsView { last_updated_at: now, ..a.main },
        keywords: upserted_all(a.keywords, ps, now),
    }
}

/// The keyword `k` after its log `e`.
pub open spec fn keyword_after_log(k: KeywordView, e: Log, now: String) -> KeywordView {
    KeywordView {
        stats: KeywordStat {
            error_counts: error_bump(k.stats.error_counts, e),
            log_counts: k.stats.log_counts.saturating_add(1),
            last_updated_at: now,
            ..k.stats
        },
        logs: k.logs.push(e),
    }
}

/// `a` after the log `e` of keyword `id`; nothing changes when there is no such keyword.
pub open spec fn after_keyword_log(a: StatisticsView, id: u64, e: Log, now: String) -> StatisticsView {
    let i = keyword_index(a.keywords, id);
    if i < 0 {
        a
    } else {
        StatisticsView {
            main: MainStatsView {
                error_counts: error_bump(a.main.error_counts, e),
                log_counts: a.main.log_counts.saturating_add(1),
                last_updated_at: now,
                ..a.main
            },
            keywords: a.keywords.update(i, keyword_after_log(a.keywords[i], e, now)),
        }
    }
}

/// `a` after the update `p` of an existing keyword; nothing changes when there is no
/// such keyword.
pub open spec fn after_patch(a: StatisticsView, p: UpdateKeywordStat, now: String) -> StatisticsView {
    let i = keyword_index(a.keywords, p.id);
    if i < 0 {
        a
    } else {
        StatisticsView {
            main: MainStatsView { last_updated_at: now, ..a.main },
            keywords: a.keywords.update(i, patched(a.keywords[i], p, now)),
        }
    }
}

/// The newest `n` entries of `logs`, in order.
pub open spec fn kept(logs: Seq<Log>, n: nat) -> Seq<Log> {
    if logs.len() > n {
        logs.subrange(logs.len() - n, logs.len() as int)
    } else {
        logs
    }
}

/// A keyword after a sweep that keeps `n` logs; with `n == 0` its counters are zeroed.
pub open spec fn swept_keyword(k: KeywordView, n: nat, now: String) -> KeywordView {
    KeywordView {
        stats: if n == 0 {
            KeywordStat { error_counts: 0, log_counts: 0, last_updated_at: now, ..k.stats }
        } else {
            k.stats
        },
        logs: kept(k.logs, n),
    }
}

/// An account after a sweep that keeps `n` logs, of its own and of each keyword; with
/// `n == 0` its counters are zeroed.
pub open spec fn swept(a: StatisticsView, n: nat, now: String) -> StatisticsView {
    StatisticsView {
        main: if n == 0 {
            MainStatsView {
                error_counts: 0,
                log_counts: 0,
                no_api_calls: 0,
                no_internal_api_calls: 0,
                logs: kept(a.main.logs, n),
                ..a.main
            }
        } else {
            MainStatsView { logs: kept(a.main.logs, n), ..a.main }
        },
        keywords: a.keywords.map_values(|k: KeywordView| swept_keyword(k, n, now)),
    }
}

pub proof fn lemma_keyword_index(ks: Seq<KeywordView>, id: u64)
    ensures
        -1 <= keyword_index(ks, id) < ks.len(),
        keyword_index(ks, id) >= 0 ==> ks[keyword_index(ks, id)].stats.id == id,
        keyword_index(ks, id) < 0 ==> forall|j: int| 0 <= j < ks.len() ==> ks[j].stats.id != id,
    decreases ks.len(),
{
    if ks.len() > 0 {
        lemma_keyword_index(ks.drop_last(), id);
        if ks.last().stats.id != id {
            assert forall|j: int| 0 <= j < ks.len() - 1 implies ks[j] == ks.drop_last()[j] by {}
        }
    }
}

/// Keeps the newest `n` logs of `logs`.
fn trim_logs(logs: &mut Vec<Log>, n: usize) -> (r: usize)
    ensures
        final(logs)@ == kept(old(logs)@, n as nat),
        r == dropped(old(logs)@, n as nat),
{
    let len = logs.len();
    if len > n {
        let tail = logs.split_off(len - n);
        *logs = tail;
        len - n
    } else {
        0
    }
}

/// How many entries a sweep that keeps `n` drops from `logs`.
pub open spec fn dropped(logs: Seq<Log>, n: nat) -> nat {
    if logs.len() > n {
        (logs.len() - n) as nat
    } else {
        0
    }
}

/// How many keyword logs a sweep that keeps `n` drops from the keywords `ks`.
pub open spec fn keywords_dropped(ks: Seq<KeywordView>, n: nat) -> nat
    decreases ks.len(),
{
    if ks.len() == 0 {
        0
    } else {
        keywords_dropped(ks.drop_last(), n) + dropped(ks.last().logs, n)
    }
}

/// `x`, or `u64::MAX` where `x` is larger.
pub open spec fn capped(x: nat) -> u64 {
    if x > u64::MAX {
        u64::MAX
    } else {
        x as u64
    }
}

pub proof fn lemma_capped_add(x: nat, y: nat)
    ensures
        capped(x).saturating_add(capped(y)) == capped(x + y),
{
}

impl MainStats {
    /// The statistics of a new account, started at `now`.
    pub fn new(account_name: String, now: &String) -> (r: MainStats)
        ensures
            r@ == blank_main(account_name, *now),
    {
        MainStats {
            account_name,
            error_counts: 0,
            running: false,
            no_api_calls: 0,
            log_counts: 0,
            no_internal_api_calls: 0,
            started_at: now.clone(),
            last_updated_at: now.clone(),
            logs: Vec::new(),
        }
    }

    /// A deep copy.
    pub fn copy(&self) -> (r: MainStats)
        ensures
            r@ == self@,
    {
        MainStats {
            account_name: self.account_name.clone(),
            error_counts: self.error_counts,
            running: self.running,
            no_api_calls: self.no_api_calls,
            log_counts: self.log_counts,
            no_internal_api_calls: self.no_internal_api_calls,
            started_at: self.started_at.clone(),
            last_updated_at: self.last_updated_at.clone(),
            logs: copy_logs(&self.logs),
        }
    }
}

impl Statistics {
    /// The statistics of a new account, started at `now`.
    pub fn new(account: String, now: &String) -> (r: Statistics)
        ensures
            r@ == fresh_statistics(account, *now),
            r.wf(),
    {
        let r = Statistics { main_stats: MainStats::new(account, now), keyword_stats: Vec::new() };
        assert(r@.keywords =~= Seq::<KeywordView>::empty());
        r
    }

    /// Keyword ids are unique within an account.
    pub open spec fn wf(&self) -> bool {
        unique_ids(self@.keywords)
    }

    /// The position of keyword `id`, if the account has it.
    pub fn find_keyword(&self, id: u64) -> (r: Option<usize>)
        ensures
            match r {
                Some(i) => i == keyword_index(self@.keywords, id),
                None => keyword_index(self@.keywords, id) < 0,
            },
    {
        let ghost ks = self@.keywords;
        let mut i: usize = self.keyword_stats.len();
        assert(ks.subrange(0, i as int) == ks);
        while i > 0
            invariant
                i <= ks.len(),
                ks == self@.keywords,
                keyword_index(ks, id) == keyword_index(ks.subrange(0, i as int), id),
            decreases i,
        {
            let ghost sub = ks.subrange(0, i as int);
            assert(sub.drop_last() == ks.subrange(0, i - 1));
            assert(sub.last() == self.keyword_stats@[i - 1]@);
            if self.keyword_stats[i - 1].stats.id == id {
                return Some(i - 1);
            }
            i -= 1;
        }
        None
    }

    /// Applies a counter change and marks the account updated at `now`.
    pub fn apply_delta(&mut self, d: &UpdateStat, now: &String)
        requires
            old(self).wf(),
        ensures
            final(self).wf(),
            final(self)@ == after_delta(old(self)@, *d, *now),
    {
        self.main_stats.last_updated_at = now.clone();
        if let Some(x) = d.error_counts {
            self.main_stats.error_counts = self.main_stats.error_counts.saturating_add(x);
        }
        if let Some(r) = d.running {
            self.main_stats.running = r;
        }
        if let Some(x) = d.no_of_api_call_diff {
            self.main_stats.no_api_calls = self.main_stats.no_api_calls.saturating_add(x);
        }
    }

    /// Appends a log of the account itself and counts it.
    pub fn add_log(&mut self, e: Log, now: &String)
        requires
            old(self).wf(),
        ensures
            final(self).wf(),
            final(self)@ == after_log(old(self)@, e, *now),
    {
        self.main_stats.last_updated_at = now.clone();
        if e.is_error_log() {
            self.main_stats.error_counts = self.main_stats.error_counts.saturating_add(1);
        }
        self.main_stats.log_counts = self.main_stats.log_counts.saturating_add(1);
        self.main_stats.logs.push(e);
    }
}

impl KeywordStatistics {
    fn blank(id: u64, now: &String) -> (r: KeywordStatistics)
        ensures
            r@ == blank_keyword(id, *now),
    {
        KeywordStatistics {
            stats: KeywordStat {
                id,
                last_updated_at: now.clone(),
                error_counts: 0,
                log_counts: 0,
                name: None,
                keyword: None,
                placement: None,
                running: None,
                ads_running: None,
                ads_position: None,
                current_price: None,
                is_max_price_reached: None,
                is_min_price_reached: None,
                max_expense_reached: None,
            },
            keyword_logs: Vec::new(),
        }
    }

    fn apply(&mut self, p: &UpdateKeywordStat, now: &String)
        ensures
            final(self)@ == patched(old(self)@, *p, *now),
    {
        self.stats.last_updated_at = now.clone();
        if p.name.is_some() {
            self.stats.name = copy_text(&p.name);
        }
        if p.keyword.is_some() {
            self.stats.keyword = copy_text(&p.keyword);
        }
        if p.placement.is_some() {
            self.stats.placement = p.placement;
        }
        if p.running.is_some() {
            self.stats.running = p.running;
        }
        if p.ads_running.is_some() {
            self.stats.ads_running = p.ads_running;
        }
        if p.ads_position.is_some() {
            self.stats.ads_position = p.ads_position;
        }
        if p.current_price.is_some() {
            self.stats.current_price = p.current_price;
        }
        if p.is_max_price_reached.is_some() {
            self.stats.is_max_price_reached = p.is_max_price_reached;
        }
        if p.is_min_price_reached.is_some() {
            self.stats.is_min_price_reached = p.is_min_price_reached;
        }
        if p.max_expense_reached.is_some() {
            self.stats.max_expense_reached = p.max_expense_reached;
        }
        match &p.logs {
            Some(v) => {
                let mut more = copy_logs(v);
                self.stats.log_counts = self.stats.log_counts.saturating_add(more.len() as u64);
                self.keyword_logs.append(&mut more);
            },
            None => {},
        }
    }

    fn record(&mut self, e: Log, now: &String)
        ensures
            final(self)@ == keyword_after_log(old(self)@, e, *now),
    {
        self.stats.last_updated_at = now.clone();
        if e.is_error_log() {
            self.stats.error_counts = self.stats.error_counts.saturating_add(1);
        }
        self.stats.log_counts = self.stats.log_counts.saturating_add(1);
        self.keyword_logs.push(e);
    }

    fn sweep(&mut self, count: usize, now: &String) -> (r: usize)
        ensures
            final(self)@ == swept_keyword(old(self)@, count as nat, *now),
            r == dropped(old(self)@.logs, count as nat),
    {
        if count == 0 {
            self.stats.error_counts = 0;
            self.stats.log_counts = 0;
            self.stats.last_updated_at = now.clone();
        }
        trim_logs(&mut self.keyword_logs, count)
    }

    /// Applies one keyword update to an account: the keyword `input.id` is patched, or
    /// created with zero counters and then patched. The account is marked updated.
    pub fn update(stats: &mut Statistics, input: &UpdateKeywordStat, now: &String)
        requires
            old(stats).wf(),
        ensures
            final(stats).wf(),
            final(stats)@ == after_keywords(old(stats)@, seq![*input], *now),
    {
        let ghost ks = old(stats)@.keywords;
        proof {
            lemma_keyword_index(ks, input.id);
        }
        assert(seq![*input].drop_last() =~= Seq::<UpdateKeywordStat>::empty());
        assert(upserted_all(ks, seq![*input].drop_last(), *now) == ks);
        stats.main_stats.last_updated_at = now.clone();
        match stats.find_keyword(input.id) {
            Some(i) => {
                stats.keyword_stats[i].apply(input, now);
                assert(stats@.keywords =~= ks.update(i as int, patched(ks[i as int], *input, *now)));
            },
            None => {
                let mut k = KeywordStatistics::blank(input.id, now);
                k.apply(input, now);
                stats.keyword_stats.push(k);
                assert(stats@.keywords =~= ks.push(
                    patched(blank_keyword(input.id, *now), *input, *now),
                ));
            },
        }
        assert(unique_ids(stats@.keywords)) by {
            assert forall|a: int, b: int| 0 <= a < b < stats@.keywords.len() implies
                #[trigger] stats@.keywords[a].stats.id != #[trigger] stats@.keywords[b].stats.id by {
                if b < ks.len() {
                    assert(ks[a].stats.id != ks[b].stats.id);
                }
            }
        }
    }

    /// Records a log of keyword `id` on the keyword and on its account. Nothing changes
    /// when the account has no such keyword.
    pub fn add_logs(stats: &mut Statistics, id: u64, input: Log, now: &String)
        requires
            old(stats).wf(),
        ensures
            final(stats).wf(),
            final(stats)@ == after_keyword_log(old(stats)@, id, input, *now),
    {
        let ghost ks = old(stats)@.keywords;
        proof {
            lemma_keyword_index(ks, id);
        }
        if let Some(i) = stats.find_keyword(id) {
            stats.main_stats.last_updated_at = now.clone();
            if input.is_error_log() {
                stats.main_stats.error_counts = stats.main_stats.error_counts.saturating_add(1);
            }
            stats.main_stats.log_counts = stats.main_stats.log_counts.saturating_add(1);
            stats.keyword_stats[i].record(input, now);
            assert(stats@.keywords =~= ks.update(
                i as int,
                keyword_after_log(ks[i as int], input, *now),
            ));
            assert(unique_ids(stats@.keywords)) by {
                assert forall|a: int, b: int| 0 <= a < b < stats@.keywords.len() implies
                    #[trigger] stats@.keywords[a].stats.id
                    != #[trigger] stats@.keywords[b].stats.id by {
                    assert(ks[a].stats.id != ks[b].stats.id);
                }
            }
        }
    }
}

/// The retention sweep of one account: keeps the newest `count` logs of the account and
/// of each keyword, and with `count == 0` also zeroes their counters. Returns how many
/// account logs and how many keyword logs it dropped, each capped at `u64::MAX`.
pub fn clear_db(statistics: &mut Statistics, count: usize, now: &String) -> (r: (u64, u64))
    requires
        old(statistics).wf(),
    ensures
        final(statistics).wf(),
        final(statistics)@ == swept(old(statistics)@, count as nat, *now),
        r.0 == capped(dropped(old(statistics)@.main.logs, count as nat)),
        r.1 == capped(keywords_dropped(old(statistics)@.keywords, count as nat)),
{
    let ghost ks = old(statistics)@.keywords;
    if count == 0 {
        statistics.main_stats.error_counts = 0;
        statistics.main_stats.log_counts = 0;
        statistics.main_stats.no_api_calls = 0;
        statistics.main_stats.no_internal_api_calls = 0;
    }
    let main_dropped = trim_logs(&mut statistics.main_stats.logs, count);
    let ghost main = statistics@.main;
    let mut keyword_dropped: u64 = 0;
    let mut i: usize = 0;
    assert(ks.subrange(0, 0) =~= Seq::<KeywordView>::empty());
    while i < statistics.keyword_stats.len()
        invariant
            i <= ks.len(),
            statistics@.main == main,
            statistics@.keywords.len() == ks.len(),
            forall|j: int|
                0 <= j < i ==> #[trigger] statistics@.keywords[j] == swept_keyword(
                    ks[j],
                    count as nat,
                    *now,
                ),
            forall|j: int| i <= j < ks.len() ==> #[trigger] statistics@.keywords[j] == ks[j],
            keyword_dropped == capped(keywords_dropped(ks.subrange(0, i as int), count as nat)),
        decreases ks.len() - i,
    {
        let ghost before = statistics@.keywords;
        assert(before[i as int] == ks[i as int]);
        let d = statistics.keyword_stats[i].sweep(count, now);
        proof {
            let done = ks.subrange(0, i as int);
            assert(ks.subrange(0, i + 1).drop_last() =~= done);
            lemma_capped_add(keywords_dropped(done, count as nat), d as nat);
        }
        keyword_dropped = keyword_dropped.saturating_add(d as u64);
        assert(statistics.keyword_stats@[i as int]@ == swept_keyword(ks[i as int], count as nat, *now));
        assert(statistics@.keywords =~= before.update(
            i as int,
            swept_keyword(ks[i as int], count as nat, *now),
        ));
        i += 1;
    }
    assert(statistics@.keywords =~= ks.map_values(
        |k: KeywordView| swept_keyword(k, count as nat, *now),
    ));
    assert(statistics@.main =~= swept(old(statistics)@, count as nat, *now).main);
    assert(ks.subrange(0, ks.len() as int) =~= ks);
    (main_dropped as u64, keyword_dropped)
}

/// One more keyword update, applied after `ps`, is the same as applying `ps.push(p)`.
pub proof fn lemma_after_keywords_step(
    a: StatisticsView,
    ps: Seq<UpdateKeywordStat>,
    p: UpdateKeywordStat,
    now: String,
)
    ensures
        after_keywords(after_keywords(a, ps, now), seq![p], now) == after_keywords(
            a,
            ps.push(p),
            now,
        ),
{
    let ks = upserted_all(a.keywords, ps, now);
    assert(seq![p].drop_last() =~= Seq::<UpdateKeywordStat>::empty());
    assert(upserted_all(ks, seq![p].drop_last(), now) == ks);
    assert(ps.push(p).drop_last() =~= ps);
}

impl Statistics {
    /// Applies keyword updates in the order given and marks the account updated.
    pub fn set_keywords(&mut self, input: &Vec<UpdateKeywordStat>, now: &String)
        requires
            old(self).wf(),
        ensures
            final(self).wf(),
            final(self)@ == after_keywords(old(self)@, input@, *now),
    {
        let ghost a = self@;
        self.main_stats.last_updated_at = now.clone();
        assert(self@ =~= after_keywords(a, input@.subrange(0, 0), *now));
        let mut k: usize = 0;
        while k < input.len()
            invariant
                k <= input@.len(),
                self.wf(),
                self@ == after_keywords(a, input@.subrange(0, k as int), *now),
            decreases input@.len() - k,
        {
            let ghost ps = input@.subrange(0, k as int);
            assert(input@.subrange(0, k + 1) =~= ps.push(input@[k as int]));
            proof {
                lemma_after_keywords_step(a, ps, input@[k as int], *now);
            }
            KeywordStatistics::update(self, &input[k], now);
            k += 1;
        }
        assert(input@.subrange(0, input@.len() as int) =~= input@);
    }
}

} // verus!
