//! The running waveform jobs: each job's cancellation token by job id, and
//! which job is filling each cache file.
//!
//! The two tables are `dashmap::DashMap`s. Their contents are named by
//! `running_jobs` (the job ids) and `cache_owners` (cache key to job id);
//! the wrappers below state what each `DashMap` method does to them.
use vstd::prelude::*;
use dashmap::DashMap;
use tokio_util::sync::CancellationToken;

verus! {

#[verifier::external_type_specification]
#[verifier::external_body]
#[verifier::reject_recursive_types(K)]
#[verifier::reject_recursive_types(V)]
#[verifier::reject_recursive_types(S)]
pub struct ExDashMap<K, V, S>(DashMap<K, V, S>);

#[verifier::external_type_specification]
#[verifier::external_body]
pub struct ExCancellationToken(CancellationToken);

/// The job ids that a job table holds.
pub uninterp spec fn running_jobs(m: DashMap<String, CancellationToken>) -> Set<Seq<char>>;

/// The cache key to job id entries that an owner table holds.
pub uninterp spec fn cache_owners(m: DashMap<String, String>) -> Map<Seq<char>, Seq<char>>;

/// The owner table with no entry.
pub open spec fn no_owners() -> Map<Seq<char>, Seq<char>> {
    Map::empty()
}

/// `DashMap::new` for the job table: it holds no job.
#[verifier::external_body]
fn new_job_table() -> (m: DashMap<String, CancellationToken>)
    ensures
        running_jobs(m) == Set::<Seq<char>>::empty(),
{
    DashMap::new()
}

/// `DashMap::new` for the owner table: it holds no entry.
#[verifier::external_body]
fn new_owner_table() -> (m: DashMap<String, String>)
    ensures
        cache_owners(m) == no_owners(),
{
    DashMap::new()
}

/// `DashMap::insert` on the job table: the id is then held (with the new
/// token, replacing any earlier one); the other ids are unchanged.
#[verifier::external_body]
fn insert_job(m: &mut DashMap<String, CancellationToken>, job_id: String, token: CancellationToken)
    ensures
        running_jobs(*final(m)) == running_jobs(*old(m)).insert(job_id@),
{
    m.insert(job_id, token);
}

/// `DashMap::insert` on the owner table: the key then maps to the job id,
/// the other entries unchanged.
#[verifier::external_body]
fn insert_owner(m: &mut DashMap<String, String>, cache_key: String, job_id: String)
    ensures
        cache_owners(*final(m)) == cache_owners(*old(m)).insert(cache_key@, job_id@),
{
    m.insert(cache_key, job_id);
}

/// `DashMap::remove` on the owner table: the key's entry is taken out and
/// its job id returned, if the key was held.
#[verifier::external_body]
fn remove_owner(m: &mut DashMap<String, String>, cache_key: &str) -> (r: Option<String>)
    ensures
        cache_owners(*final(m)) == cache_owners(*old(m)).remove(cache_key@),
        match r {
            Some(v) => cache_owners(*old(m)).contains_key(cache_key@) && v@ == cache_owners(*old(m))[cache_key@],
            None => !cache_owners(*old(m)).contains_key(cache_key@),
        },
{
    m.remove(cache_key).map(|(_, v)| v)
}

/// `DashMap::remove` on the job table: the id is taken out and its token
/// returned, if the id was held.
#[verifier::external_body]
fn remove_job(m: &mut DashMap<String, CancellationToken>, job_id: &str) -> (r: Option<CancellationToken>)
    ensures
        running_jobs(*final(m)) == running_jobs(*old(m)).remove(job_id@),
        r is Some <==> running_jobs(*old(m)).contains(job_id@),
{
    m.remove(job_id).map(|(_, v)| v)
}

/// `DashMap::contains_key` on the job table.
#[verifier::external_body]
fn has_job(m: &DashMap<String, CancellationToken>, job_id: &str) -> (b: bool)
    ensures
        b == running_jobs(*m).contains(job_id@),
{
    m.contains_key(job_id)
}

/// `DashMap::get` on the job table, handing out a clone of the token (a
/// clone is cancelled together with the original).
#[verifier::external_body]
fn job_token(m: &DashMap<String, CancellationToken>, job_id: &str) -> (r: Option<CancellationToken>)
    ensures
        r is Some <==> running_jobs(*m).contains(job_id@),
{
    m.get(job_id).map(|e| e.value().clone())
}

/// `DashMap::iter` on the job table, handing out a clone of every token.
/// Nothing is stated of the order, nor of the tokens.
#[verifier::external_body]
fn all_job_tokens(m: &DashMap<String, CancellationToken>) -> Vec<CancellationToken> {
    m.iter().map(|e| e.value().clone()).collect()
}

/// `DashMap::clear` on the owner table: it then holds no entry.
#[verifier::external_body]
fn clear_owners(m: &mut DashMap<String, String>)
    ensures
        cache_owners(*final(m)) == no_owners(),
{
    m.clear();
}

/// The entries of `owners` that do not name `job_id`.
pub open spec fn owners_without(owners: Map<Seq<char>, Seq<char>>, job_id: Seq<char>) -> Map<Seq<char>, Seq<char>> {
    owners.restrict(owners.dom().filter(|k: Seq<char>| owners[k] != job_id))
}

/// Whether an owner entry naming `owner` is kept when `job_id` is removed.
pub fn keeps_owner(owner: &String, job_id: &str) -> (b: bool)
    ensures
        b == (owner@ != job_id@),
{
    !crate::text::str_equal(owner.as_str(), job_id)
}

/// `DashMap::retain` on the owner table, keeping the entries whose job id is
/// not `job_id`.
#[verifier::external_body]
fn retain_owners_not(m: &mut DashMap<String, String>, job_id: &str)
    ensures
        cache_owners(*final(m)) == owners_without(cache_owners(*old(m)), job_id@),
{
    m.retain(|_, owner| keeps_owner(owner, job_id));
}

/// `CancellationToken::cancel`: asks the job holding the token (and every
/// clone of it) to stop.
#[verifier::external_body]
fn cancel_token(t: &CancellationToken) {
    t.cancel();
}

/// The running waveform jobs and the cache file each one fills.
pub struct WaveformJobRegistry {
    jobs: DashMap<String, CancellationToken>,
    owners: DashMap<String, String>,
}

impl WaveformJobRegistry {
    /// The job ids of running jobs.
    pub closed spec fn jobs(&self) -> Set<Seq<char>> {
        running_jobs(self.jobs)
    }

    /// The job filling each cache file, by cache key.
    pub closed spec fn owners(&self) -> Map<Seq<char>, Seq<char>> {
        cache_owners(self.owners)
    }

    /// A registry with no job.
    pub fn new() -> (r: WaveformJobRegistry)
        ensures
            r.jobs() == Set::<Seq<char>>::empty(),
            r.owners() == no_owners(),
    {
        WaveformJobRegistry { jobs: new_job_table(), owners: new_owner_table() }
    }

    /// Records a started job, its token, and the cache file it fills.
    pub fn register(&mut self, job_id: String, token: CancellationToken, cache_key: String)
        ensures
            final(self).jobs() == old(self).jobs().insert(job_id@),
            final(self).owners() == old(self).owners().insert(cache_key@, job_id@),
    {
        let id_for_owner: String = job_id.clone();
        insert_owner(&mut self.owners, cache_key, id_for_owner);
        insert_job(&mut self.jobs, job_id, token);
    }

    /// Takes the job filling `cache_key` off the registry and cancels it;
    /// returns its id, `None` when no job fills that cache file.
    pub fn evict(&mut self, cache_key: &str) -> (r: Option<String>)
        ensures
            final(self).owners() == old(self).owners().remove(cache_key@),
            match r {
                Some(id) => {
                    &&& old(self).owners().contains_key(cache_key@)
                    &&& id@ == old(self).owners()[cache_key@]
                    &&& final(self).jobs() == old(self).jobs().remove(id@)
                },
                None => !old(self).owners().contains_key(cache_key@) && final(self).jobs() == old(self).jobs(),
            },
    {
        let owner: Option<String> = remove_owner(&mut self.owners, cache_key);
        match owner {
            Some(job_id) => {
                let token: Option<CancellationToken> = remove_job(&mut self.jobs, job_id.as_str());
                match token {
                    Some(t) => cancel_token(&t),
                    None => {},
                }
                Some(job_id)
            },
            None => None,
        }
    }

    /// Whether the job is still registered.
    pub fn is_running(&self, job_id: &str) -> (b: bool)
        ensures
            b == self.jobs().contains(job_id@),
    {
        has_job(&self.jobs, job_id)
    }

    /// Asks the job to stop; the registry is unchanged (the job removes
    /// itself when it ends).
    pub fn cancel(&self, job_id: &str) {
        match job_token(&self.jobs, job_id) {
            Some(t) => cancel_token(&t),
            None => {},
        }
    }

    /// Asks every job to stop and forgets which job fills which cache file.
    pub fn cancel_all(&mut self)
        ensures
            final(self).owners() == no_owners(),
            final(self).jobs() == old(self).jobs(),
    {
        clear_owners(&mut self.owners);
        let tokens: Vec<CancellationToken> = all_job_tokens(&self.jobs);
        let n: usize = tokens.len();
        let mut i: usize = 0;
        while i < n
            invariant
                i <= n,
                n == tokens@.len(),
            decreases n - i,
        {
            cancel_token(&tokens[i]);
            i = i + 1;
        }
    }

    /// Forgets a finished job and every cache file it was filling.
    pub fn remove(&mut self, job_id: &str)
        ensures
            final(self).jobs() == old(self).jobs().remove(job_id@),
            final(self).owners() == owners_without(old(self).owners(), job_id@),
    {
        let _ = remove_job(&mut self.jobs, job_id);
        retain_owners_not(&mut self.owners, job_id);
    }
}

/// A registered job runs, and its cache file names it.
pub proof fn lemma_register_then_running(r1: WaveformJobRegistry, r2: WaveformJobRegistry, job_id: Seq<char>, cache_key: Seq<char>)
    requires
        r2.jobs() == r1.jobs().insert(job_id),
        r2.owners() == r1.owners().insert(cache_key, job_id),
    ensures
        r2.jobs().contains(job_id),
        r2.owners().contains_key(cache_key) && r2.owners()[cache_key] == job_id,
{
}

/// Evicting the owner of a cache file that a registration just named
/// returns that job, which then no longer runs.
pub proof fn lemma_evict_after_register(
    r1: WaveformJobRegistry,
    r2: WaveformJobRegistry,
    r3: WaveformJobRegistry,
    job_id: Seq<char>,
    cache_key: Seq<char>,
    evicted: Option<Seq<char>>,
)
    requires
        r2.jobs() == r1.jobs().insert(job_id),
        r2.owners() == r1.owners().insert(cache_key, job_id),
        r3.owners() == r2.owners().remove(cache_key),
        match evicted {
            Some(id) => r2.owners().contains_key(cache_key) && id == r2.owners()[cache_key]
                && r3.jobs() == r2.jobs().remove(id),
            None => !r2.owners().contains_key(cache_key) && r3.jobs() == r2.jobs(),
        },
    ensures
        evicted == Some(job_id),
        !r3.jobs().contains(job_id),
        !r3.owners().contains_key(cache_key),
{
}

/// After a job is removed it no longer runs and owns no cache file.
pub proof fn lemma_removed_job_owns_nothing(r1: WaveformJobRegistry, r2: WaveformJobRegistry, job_id: Seq<char>)
    requires
        r2.jobs() == r1.jobs().remove(job_id),
        r2.owners() == owners_without(r1.owners(), job_id),
    ensures
        !r2.jobs().contains(job_id),
        forall|k: Seq<char>| #[trigger] r2.owners().contains_key(k) ==> r2.owners()[k] != job_id,
        forall|k: Seq<char>| #[trigger] r1.owners().contains_key(k) && r1.owners()[k] != job_id
            ==> r2.owners().contains_key(k) && r2.owners()[k] == r1.owners()[k],
{
}

} // verus!
