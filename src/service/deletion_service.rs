use vstd::prelude::*;

verus! {

/// Seconds in one day.
pub const SECONDS_PER_DAY: i64 = 86400;

/// Grace period used unless another is configured: thirty days, in seconds.
pub const DEFAULT_GRACE_PERIOD: i64 = 30 * SECONDS_PER_DAY;

/// A user's pending request to have their account deleted. The deadline is
/// the instant, in seconds since the Unix epoch (UTC), from which the account
/// may be purged.
pub struct PendingDeletion {
    pub user_id: String,
    pub deadline: i64,
}

/// Why a deletion request was refused.
#[derive(PartialEq, Eq, Structural, Debug, Clone, Copy)]
pub enum DeletionError {
    /// The user already has a pending deletion; its deadline stays as it was.
    AlreadyScheduled,
}

/// Why a stored snapshot cannot seed a registry.
#[derive(PartialEq, Eq, Structural, Debug, Clone, Copy)]
pub enum SnapshotError {
    /// Two entries of the snapshot name the same user.
    DuplicateUser,
}

/// Some entry of `e` belongs to user `k`.
pub open spec fn lists_user(e: Seq<PendingDeletion>, k: Seq<char>) -> bool {
    exists|i: int| 0 <= i < e.len() && #[trigger] e[i].user_id@ == k
}

/// No two entries of `e` belong to the same user.
pub open spec fn keys_unique(e: Seq<PendingDeletion>) -> bool {
    forall|i: int, j: int|
        #![trigger e[i], e[j]]
        0 <= i < e.len() && 0 <= j < e.len() && i != j ==> e[i].user_id@ != e[j].user_id@
}

/// The mapping from user to deadline that the entries `e` describe.
pub open spec fn entries_view(e: Seq<PendingDeletion>) -> Map<Seq<char>, i64> {
    Map::new(
        |k: Seq<char>| lists_user(e, k),
        |k: Seq<char>| e[choose|i: int| 0 <= i < e.len() && #[trigger] e[i].user_id@ == k].deadline,
    )
}

/// The registry after a request to schedule user `k` for `deadline`: an
/// existing request is kept as it is.
pub open spec fn scheduled(m: Map<Seq<char>, i64>, k: Seq<char>, deadline: i64) -> Map<
    Seq<char>,
    i64,
> {
    if m.contains_key(k) {
        m
    } else {
        m.insert(k, deadline)
    }
}

/// The users of `m` whose deadline has been reached at `now`.
pub open spec fn due_set(m: Map<Seq<char>, i64>, now: i64) -> Set<Seq<char>> {
    Set::new(|k: Seq<char>| m.contains_key(k) && m[k] <= now)
}

/// `r` lists each user of `s` exactly once, and nothing else.
pub open spec fn lists_exactly(r: Seq<String>, s: Set<Seq<char>>) -> bool {
    &&& forall|i: int| 0 <= i < r.len() ==> s.contains(#[trigger] r[i]@)
    &&& forall|k: Seq<char>| #[trigger]
        s.contains(k) ==> exists|i: int| 0 <= i < r.len() && #[trigger] r[i]@ == k
    &&& forall|i: int, j: int|
        #![trigger r[i], r[j]]
        0 <= i < r.len() && 0 <= j < r.len() && i != j ==> r[i]@ != r[j]@
}

proof fn lemma_view_at(e: Seq<PendingDeletion>, i: int)
    requires
        keys_unique(e),
        0 <= i < e.len(),
    ensures
        entries_view(e).contains_key(e[i].user_id@),
        entries_view(e)[e[i].user_id@] == e[i].deadline,
{
    let k = e[i].user_id@;
    assert(lists_user(e, k));
    let j = choose|j: int| 0 <= j < e.len() && #[trigger] e[j].user_id@ == k;
    assert(e[j].user_id@ == k);
    assert(j == i);
}

proof fn lemma_view_push(e: Seq<PendingDeletion>, p: PendingDeletion)
    requires
        keys_unique(e),
        !entries_view(e).contains_key(p.user_id@),
    ensures
        keys_unique(e.push(p)),
        entries_view(e.push(p)) == entries_view(e).insert(p.user_id@, p.deadline),
{
    let f = e.push(p);
    assert forall|i: int, j: int|
        #![trigger f[i], f[j]]
        0 <= i < f.len() && 0 <= j < f.len() && i != j implies f[i].user_id@ != f[j].user_id@ by {
        if i < e.len() && j < e.len() {
            assert(f[i] == e[i] && f[j] == e[j]);
        } else if i < e.len() {
            assert(f[i] == e[i]);
            assert(lists_user(e, e[i].user_id@));
        } else {
            assert(f[j] == e[j]);
            assert(lists_user(e, e[j].user_id@));
        }
    }
    let lhs = entries_view(f);
    let rhs = entries_view(e).insert(p.user_id@, p.deadline);
    assert forall|k: Seq<char>| lhs.contains_key(k) <==> rhs.contains_key(k) by {
        if lhs.contains_key(k) {
            let i = choose|i: int| 0 <= i < f.len() && #[trigger] f[i].user_id@ == k;
            if i < e.len() {
                assert(f[i] == e[i]);
                assert(lists_user(e, k));
            }
        }
        if rhs.contains_key(k) {
            if k == p.user_id@ {
                assert(f[e.len() as int] == p);
                assert(lists_user(f, k));
            } else {
                let i = choose|i: int| 0 <= i < e.len() && #[trigger] e[i].user_id@ == k;
                assert(f[i] == e[i]);
                assert(lists_user(f, k));
            }
        }
    }
    assert forall|k: Seq<char>| #[trigger] lhs.contains_key(k) implies lhs[k] == rhs[k] by {
        let i = choose|i: int| 0 <= i < f.len() && #[trigger] f[i].user_id@ == k;
        lemma_view_at(f, i);
        if i < e.len() {
            assert(f[i] == e[i]);
            lemma_view_at(e, i);
        }
    }
    assert(lhs =~= rhs);
}

proof fn lemma_view_remove(e: Seq<PendingDeletion>, i: int)
    requires
        keys_unique(e),
        0 <= i < e.len(),
    ensures
        keys_unique(e.remove(i)),
        entries_view(e.remove(i)) == entries_view(e).remove(e[i].user_id@),
{
    let f = e.remove(i);
    let gone = e[i].user_id@;
    assert forall|a: int, b: int|
        #![trigger f[a], f[b]]
        0 <= a < f.len() && 0 <= b < f.len() && a != b implies f[a].user_id@ != f[b].user_id@ by {
        let ea = if a < i { a } else { a + 1 };
        let eb = if b < i { b } else { b + 1 };
        assert(f[a] == e[ea] && f[b] == e[eb]);
    }
    let lhs = entries_view(f);
    let rhs = entries_view(e).remove(gone);
    assert forall|k: Seq<char>| lhs.contains_key(k) <==> rhs.contains_key(k) by {
        if lhs.contains_key(k) {
            let a = choose|a: int| 0 <= a < f.len() && #[trigger] f[a].user_id@ == k;
            let ea = if a < i { a } else { a + 1 };
            assert(f[a] == e[ea]);
            assert(lists_user(e, k));
        }
        if rhs.contains_key(k) {
            let a = choose|a: int| 0 <= a < e.len() && #[trigger] e[a].user_id@ == k;
            assert(a != i);
            let fa = if a < i { a } else { a - 1 };
            assert(f[fa] == e[a]);
            assert(lists_user(f, k));
        }
    }
    assert forall|k: Seq<char>| #[trigger] lhs.contains_key(k) implies lhs[k] == rhs[k] by {
        let a = choose|a: int| 0 <= a < f.len() && #[trigger] f[a].user_id@ == k;
        let ea = if a < i { a } else { a + 1 };
        assert(f[a] == e[ea]);
        lemma_view_at(f, a);
        lemma_view_at(e, ea);
    }
    assert(lhs =~= rhs);
}

proof fn lemma_view_same_entries(a: Seq<PendingDeletion>, b: Seq<PendingDeletion>)
    requires
        keys_unique(a),
        a.len() == b.len(),
        forall|i: int|
            0 <= i < a.len() ==> (#[trigger] a[i]).user_id@ == b[i].user_id@ && a[i].deadline
                == b[i].deadline,
    ensures
        keys_unique(b),
        entries_view(b) == entries_view(a),
{
    assert forall|i: int, j: int|
        #![trigger b[i], b[j]]
        0 <= i < b.len() && 0 <= j < b.len() && i != j implies b[i].user_id@ != b[j].user_id@ by {
        assert(a[i].user_id@ == b[i].user_id@ && a[j].user_id@ == b[j].user_id@);
    }
    assert forall|k: Seq<char>| lists_user(a, k) <==> lists_user(b, k) by {
        if lists_user(a, k) {
            let i = choose|i: int| 0 <= i < a.len() && #[trigger] a[i].user_id@ == k;
            assert(b[i].user_id@ == k);
        }
        if lists_user(b, k) {
            let i = choose|i: int| 0 <= i < b.len() && #[trigger] b[i].user_id@ == k;
            assert(a[i].user_id@ == k);
        }
    }
    assert forall|k: Seq<char>| #[trigger] entries_view(b).contains_key(k) implies entries_view(
        b,
    )[k] == entries_view(a)[k] by {
        let i = choose|i: int| 0 <= i < b.len() && #[trigger] b[i].user_id@ == k;
        lemma_view_at(a, i);
        lemma_view_at(b, i);
    }
    assert(entries_view(b) =~= entries_view(a));
}

/// The registry of pending account deletions: at most one request per user,
/// each with the instant from which the account may be purged.
pub struct DeletionService {
    requests: Vec<PendingDeletion>,
    grace_period: i64,
}

impl View for DeletionService {
    type V = Map<Seq<char>, i64>;

    closed spec fn view(&self) -> Map<Seq<char>, i64> {
        entries_view(self.requests@)
    }
}

impl DeletionService {
    /// The registry's entries are unique per user.
    pub closed spec fn wf(&self) -> bool {
        keys_unique(self.requests@)
    }

    /// The time, in seconds, between a request and the earliest purge.
    pub closed spec fn grace(&self) -> i64 {
        self.grace_period
    }

    /// An empty registry with the default grace period.
    pub fn new() -> (s: Self)
        ensures
            s.wf(),
            s@ == Map::<Seq<char>, i64>::empty(),
            s.grace() == DEFAULT_GRACE_PERIOD,
    {
        let s = DeletionService { requests: Vec::new(), grace_period: DEFAULT_GRACE_PERIOD };
        assert(s@ =~= Map::<Seq<char>, i64>::empty());
        s
    }

    /// A registry seeded from a stored snapshot, with the default grace
    /// period. A snapshot that names a user twice is refused.
    pub fn from(entries: Vec<PendingDeletion>) -> (r: Result<Self, SnapshotError>)
        ensures
            r is Ok <==> keys_unique(entries@),
            r matches Ok(s) ==> s.wf() && s@ == entries_view(entries@) && s.grace()
                == DEFAULT_GRACE_PERIOD,
            r matches Err(e) ==> e == SnapshotError::DuplicateUser,
    {
        let mut s = DeletionService::new();
        let mut i: usize = 0;
        assert(entries@.take(0) =~= Seq::<PendingDeletion>::empty());
        assert(s@ =~= entries_view(entries@.take(0)));
        while i < entries.len()
            invariant
                i <= entries@.len(),
                s.wf(),
                s.grace() == DEFAULT_GRACE_PERIOD,
                keys_unique(entries@.take(i as int)),
                s@ == entries_view(entries@.take(i as int)),
            decreases entries@.len() - i,
        {
            let entry = &entries[i];
            let ghost before = entries@.take(i as int);
            match s.schedule(&entry.user_id, entry.deadline) {
                Ok(()) => {
                    proof {
                        let p = entries@[i as int];
                        assert(entries@.take(i + 1) =~= before.push(p));
                        lemma_view_push(before, p);
                    }
                },
                Err(_) => {
                    proof {
                        let k = entries@[i as int].user_id@;
                        let j = choose|j: int| 0 <= j < before.len() && #[trigger] before[j].user_id@ == k;
                        assert(entries@[j] == before[j]);
                        assert(entries@[j].user_id@ == entries@[i as int].user_id@);
                    }
                    return Err(SnapshotError::DuplicateUser);
                },
            }
            i = i + 1;
        }
        assert(entries@.take(i as int) =~= entries@);
        Ok(s)
    }

    /// A copy of every pending request, as the shutdown path stores it.
    pub fn get_requests(&self) -> (r: Vec<PendingDeletion>)
        requires
            self.wf(),
        ensures
            keys_unique(r@),
            entries_view(r@) == self@,
    {
        let mut r: Vec<PendingDeletion> = Vec::new();
        let mut i: usize = 0;
        while i < self.requests.len()
            invariant
                i <= self.requests@.len(),
                r@.len() == i,
                forall|j: int|
                    0 <= j < i ==> (#[trigger] r@[j]).user_id@ == self.requests@[j].user_id@
                        && r@[j].deadline == self.requests@[j].deadline,
            decreases self.requests@.len() - i,
        {
            let entry = &self.requests[i];
            r.push(PendingDeletion { user_id: entry.user_id.clone(), deadline: entry.deadline });
            i = i + 1;
        }
        proof {
            lemma_view_same_entries(self.requests@, r@);
        }
        r
    }

    /// The deadline of `user_id`'s pending request, if there is one.
    pub fn deadline_of(&self, user_id: &String) -> (r: Option<i64>)
        requires
            self.wf(),
        ensures
            r == (if self@.contains_key(user_id@) {
                Some(self@[user_id@])
            } else {
                None::<i64>
            }),
    {
        match self.position(user_id) {
            Some(i) => {
                proof {
                    lemma_view_at(self.requests@, i as int);
                }
                Some(self.requests[i].deadline)
            },
            None => None,
        }
    }

    /// An empty registry whose requests mature `grace_period` seconds after
    /// they are made.
    pub fn with_grace_period(grace_period: i64) -> (s: Self)
        ensures
            s.wf(),
            s@ == Map::<Seq<char>, i64>::empty(),
            s.grace() == grace_period,
    {
        let s = DeletionService { requests: Vec::new(), grace_period };
        assert(s@ =~= Map::<Seq<char>, i64>::empty());
        s
    }

    /// The configured grace period, in seconds.
    pub fn grace_period(&self) -> (r: i64)
        ensures
            r == self.grace(),
    {
        self.grace_period
    }

    /// Sets the grace period of requests made from now on; pending requests
    /// keep their deadlines.
    pub fn set_grace_period(&mut self, grace_period: i64)
        requires
            old(self).wf(),
        ensures
            final(self).wf(),
            final(self)@ == old(self)@,
            final(self).grace() == grace_period,
    {
        self.grace_period = grace_period;
    }

    /// Where the entry of `user_id` stands, if there is one.
    fn position(&self, user_id: &String) -> (r: Option<usize>)
        requires
            self.wf(),
        ensures
            r matches Some(i) ==> i < self.requests@.len() && self.requests@[i as int].user_id@
                == user_id@,
            r is None ==> !self@.contains_key(user_id@),
    {
        let mut i: usize = 0;
        while i < self.requests.len()
            invariant
                i <= self.requests@.len(),
                forall|j: int| 0 <= j < i ==> #[trigger] self.requests@[j].user_id@ != user_id@,
            decreases self.requests@.len() - i,
        {
            if self.requests[i].user_id == *user_id {
                return Some(i);
            }
            i = i + 1;
        }
        None
    }

    /// Records that `user_id` is to be deleted from `deadline` on, unless a
    /// request for that user is already pending: then nothing changes and the
    /// request is refused.
    pub fn schedule(&mut self, user_id: &String, deadline: i64) -> (r: Result<(), DeletionError>)
        requires
            old(self).wf(),
        ensures
            final(self).wf(),
            final(self).grace() == old(self).grace(),
            r is Err <==> old(self)@.contains_key(user_id@),
            r matches Err(e) ==> e == DeletionError::AlreadyScheduled,
            final(self)@ == scheduled(old(self)@, user_id@, deadline),
    {
        match self.position(user_id) {
            Some(i) => {
                proof {
                    lemma_view_at(self.requests@, i as int);
                }
                Err(DeletionError::AlreadyScheduled)
            },
            None => {
                let entry = PendingDeletion { user_id: user_id.clone(), deadline };
                proof {
                    lemma_view_push(self.requests@, entry);
                }
                self.requests.push(entry);
                Ok(())
            },
        }
    }

    /// Requests the deletion of `user_id`'s account: it may be purged once the
    /// grace period has passed from `now`. A request that is already pending
    /// keeps its deadline, and this one is refused.
    pub fn delete(&mut self, user_id: &String, now: i64) -> (r: Result<(), DeletionError>)
        requires
            old(self).wf(),
            i64::MIN <= now + old(self).grace() <= i64::MAX,
        ensures
            final(self).wf(),
            final(self).grace() == old(self).grace(),
            r is Err <==> old(self)@.contains_key(user_id@),
            r matches Err(e) ==> e == DeletionError::AlreadyScheduled,
            final(self)@ == scheduled(old(self)@, user_id@, (now + old(self).grace()) as i64),
    {
        let deadline = now + self.grace_period;
        self.schedule(user_id, deadline)
    }

    /// Withdraws `user_id`'s request, as when the user logs in again during
    /// the grace period. Withdrawing a request that is not pending changes
    /// nothing.
    pub fn cancel(&mut self, user_id: &String)
        requires
            old(self).wf(),
        ensures
            final(self).wf(),
            final(self).grace() == old(self).grace(),
            final(self)@ == old(self)@.remove(user_id@),
    {
        self.remove_if_present(user_id)
    }

    /// The users whose deadline has been reached at `now`, each once.
    pub fn due(&self, now: i64) -> (r: Vec<String>)
        requires
            self.wf(),
        ensures
            lists_exactly(r@, due_set(self@, now)),
    {
        let mut r: Vec<String> = Vec::new();
        let ghost mut src: Seq<int> = Seq::empty();
        let mut i: usize = 0;
        while i < self.requests.len()
            invariant
                self.wf(),
                i <= self.requests@.len(),
                src.len() == r@.len(),
                forall|a: int|
                    #![trigger src[a]]
                    0 <= a < r@.len() ==> 0 <= src[a] < i && self.requests@[src[a]].user_id@
                        == r@[a]@ && self.requests@[src[a]].deadline <= now,
                forall|a: int, b: int|
                    #![trigger src[a], src[b]]
                    0 <= a < r@.len() && 0 <= b < r@.len() && a != b ==> src[a] != src[b],
                forall|j: int|
                    0 <= j < i && #[trigger] self.requests@[j].deadline <= now ==> exists|a: int|
                        #![trigger src[a]]
                        0 <= a < r@.len() && src[a] == j,
            decreases self.requests@.len() - i,
        {
            let entry = &self.requests[i];
            if entry.deadline <= now {
                r.push(entry.user_id.clone());
                proof {
                    let old_src = src;
                    src = src.push(i as int);
                    assert forall|j: int|
                        0 <= j < i + 1 && #[trigger] self.requests@[j].deadline <= now implies exists|
                        a: int,
                    |
                        #![trigger src[a]]
                        0 <= a < r@.len() && src[a] == j by {
                        if j < i {
                            let a = choose|a: int|
                                #![trigger old_src[a]]
                                0 <= a < old_src.len() && old_src[a] == j;
                            assert(src[a] == old_src[a]);
                        } else {
                            assert(src[old_src.len() as int] == j);
                        }
                    }
                }
            }
            i = i + 1;
        }
        proof {
            let e = self.requests@;
            let d = due_set(self@, now);
            assert forall|a: int| 0 <= a < r@.len() implies d.contains(#[trigger] r@[a]@) by {
                assert(0 <= src[a] < e.len());
                lemma_view_at(e, src[a]);
            }
            assert forall|k: Seq<char>| #[trigger] d.contains(k) implies exists|a: int|
                0 <= a < r@.len() && #[trigger] r@[a]@ == k by {
                let j = choose|j: int| 0 <= j < e.len() && #[trigger] e[j].user_id@ == k;
                lemma_view_at(e, j);
                assert(e[j].deadline <= now);
                let a = choose|a: int| #![trigger src[a]] 0 <= a < r@.len() && src[a] == j;
                assert(r@[a]@ == k);
            }
            assert forall|a: int, b: int|
                #![trigger r@[a], r@[b]]
                0 <= a < r@.len() && 0 <= b < r@.len() && a != b implies r@[a]@ != r@[b]@ by {
                assert(src[a] != src[b]);
                assert(e[src[a]].user_id@ == r@[a]@);
                assert(e[src[b]].user_id@ == r@[b]@);
            }
        }
        r
    }

    /// Withdraws the pending request of `user_id`, if there is one.
    pub fn remove_if_present(&mut self, user_id: &String)
        requires
            old(self).wf(),
        ensures
            final(self).wf(),
            final(self).grace() == old(self).grace(),
            final(self)@ == old(self)@.remove(user_id@),
    {
        match self.position(user_id) {
            Some(i) => {
                proof {
                    lemma_view_remove(self.requests@, i as int);
                }
                self.requests.remove(i);
            },
            None => {
                assert(self@ =~= self@.remove(user_id@));
            },
        }
    }
}

/// Schedules, in order, each user of `users` for the deadline at the same
/// place of `deadlines`.
pub open spec fn schedule_all(m: Map<Seq<char>, i64>, users: Seq<Seq<char>>, deadlines: Seq<i64>) -> Map<
    Seq<char>,
    i64,
>
    decreases users.len(),
{
    if users.len() == 0 {
        m
    } else {
        scheduled(
            schedule_all(m, users.drop_last(), deadlines),
            users.last(),
            deadlines[users.len() - 1],
        )
    }
}

/// Withdraws, in order, the request of each user of `users`.
pub open spec fn cancel_all(m: Map<Seq<char>, i64>, users: Seq<Seq<char>>) -> Map<Seq<char>, i64>
    decreases users.len(),
{
    if users.len() == 0 {
        m
    } else {
        cancel_all(m, users.drop_last()).remove(users.last())
    }
}

/// A second request for a user is refused, since the user is then pending,
/// and the deadline of the first request stays as it was.
pub proof fn lemma_second_schedule_refused(
    m: Map<Seq<char>, i64>,
    k: Seq<char>,
    first: i64,
    second: i64,
)
    ensures
        scheduled(m, k, first).contains_key(k),
        scheduled(scheduled(m, k, first), k, second) == scheduled(m, k, first),
        !m.contains_key(k) ==> scheduled(scheduled(m, k, first), k, second)[k] == first,
{
}

/// A request that was withdrawn is never due, whatever the time.
pub proof fn lemma_cancelled_never_due(m: Map<Seq<char>, i64>, k: Seq<char>, deadline: i64, now: i64)
    ensures
        !due_set(scheduled(m, k, deadline).remove(k), now).contains(k),
{
}

/// A user scheduled for `deadline` is due exactly from `deadline` on.
pub proof fn lemma_due_from_deadline(m: Map<Seq<char>, i64>, k: Seq<char>, deadline: i64, now: i64)
    requires
        !m.contains_key(k),
    ensures
        due_set(scheduled(m, k, deadline), now).contains(k) <==> deadline <= now,
{
}

/// A stored snapshot holds exactly the registry's pairs of user and
/// deadline, each user once, so a fresh registry seeded from it is accepted
/// and holds the same pairs again.
pub proof fn lemma_snapshot_round_trip(r: DeletionService, snapshot: Seq<PendingDeletion>)
    requires
        r.wf(),
        keys_unique(snapshot),
        entries_view(snapshot) == r@,
    ensures
        forall|i: int|
            0 <= i < snapshot.len() ==> r@.contains_key(#[trigger] snapshot[i].user_id@)
                && r@[snapshot[i].user_id@] == snapshot[i].deadline,
        forall|k: Seq<char>|
            #[trigger] r@.contains_key(k) ==> exists|i: int|
                0 <= i < snapshot.len() && #[trigger] snapshot[i].user_id@ == k
                    && snapshot[i].deadline == r@[k],
        entries_view(snapshot) == r@,
{
    assert forall|i: int| 0 <= i < snapshot.len() implies r@.contains_key(
        #[trigger] snapshot[i].user_id@,
    ) && r@[snapshot[i].user_id@] == snapshot[i].deadline by {
        lemma_view_at(snapshot, i);
    }
    assert forall|k: Seq<char>| #[trigger] r@.contains_key(k) implies exists|i: int|
        0 <= i < snapshot.len() && #[trigger] snapshot[i].user_id@ == k && snapshot[i].deadline
            == r@[k] by {
        let i = choose|i: int| 0 <= i < snapshot.len() && #[trigger] snapshot[i].user_id@ == k;
        lemma_view_at(snapshot, i);
    }
}

/// Retiring a purged user's request a second time, as after a crash between
/// the purge and the retirement, leaves the registry as retiring it once.
pub proof fn lemma_retire_idempotent(m: Map<Seq<char>, i64>, k: Seq<char>)
    ensures
        m.remove(k).remove(k) == m.remove(k),
{
    assert(m.remove(k).remove(k) =~= m.remove(k));
}

proof fn lemma_schedule_all_users(m: Map<Seq<char>, i64>, users: Seq<Seq<char>>, deadlines: Seq<i64>, k: Seq<char>)
    requires
        schedule_all(m, users, deadlines).contains_key(k),
    ensures
        m.contains_key(k) || users.contains(k),
    decreases users.len(),
{
    if users.len() > 0 {
        let rest = users.drop_last();
        if k != users.last() {
            lemma_schedule_all_users(m, rest, deadlines, k);
            if rest.contains(k) {
                let i = choose|i: int| 0 <= i < rest.len() && rest[i] == k;
                assert(users[i] == k);
            }
        } else {
            assert(users[users.len() - 1] == k);
        }
    }
}

proof fn lemma_cancel_all_users(m: Map<Seq<char>, i64>, users: Seq<Seq<char>>, k: Seq<char>)
    requires
        users.contains(k),
    ensures
        !cancel_all(m, users).contains_key(k),
    decreases users.len(),
{
    if k != users.last() {
        let i = choose|i: int| 0 <= i < users.len() && users[i] == k;
        let rest = users.drop_last();
        assert(rest[i] == k);
        lemma_cancel_all_users(m, rest, k);
    }
}

/// Requests for any users followed by the withdrawal of each of them leave
/// an empty registry empty again.
pub proof fn lemma_schedule_then_cancel_all(users: Seq<Seq<char>>, deadlines: Seq<i64>)
    requires
        deadlines.len() == users.len(),
    ensures
        cancel_all(schedule_all(Map::empty(), users, deadlines), users) == Map::<
            Seq<char>,
            i64,
        >::empty(),
{
    let m = schedule_all(Map::empty(), users, deadlines);
    assert forall|k: Seq<char>| !#[trigger] cancel_all(m, users).contains_key(k) by {
        if users.contains(k) {
            lemma_cancel_all_users(m, users, k);
        } else {
            lemma_cancel_all_kept(m, users, k);
            if m.contains_key(k) {
                lemma_schedule_all_users(Map::empty(), users, deadlines, k);
            }
        }
    }
    assert(cancel_all(m, users) =~= Map::<Seq<char>, i64>::empty());
}

proof fn lemma_cancel_all_kept(m: Map<Seq<char>, i64>, users: Seq<Seq<char>>, k: Seq<char>)
    requires
        !users.contains(k),
    ensures
        cancel_all(m, users).contains_key(k) == m.contains_key(k),
    decreases users.len(),
{
    if users.len() > 0 {
        let rest = users.drop_last();
        assert(!rest.contains(k)) by {
            if rest.contains(k) {
                let i = choose|i: int| 0 <= i < rest.len() && rest[i] == k;
                assert(users[i] == k);
            }
        }
        assert(users[users.len() - 1] != k);
        lemma_cancel_all_kept(m, rest, k);
    }
}

} // verus!
