//! The session-scoped data store: accounts, the single active session, and
//! the task collection with its ownership rule.
//!
//! The store keeps accounts and tasks in vectors whose well-formedness
//! invariant (unique usernames, unique task ids, ids below the next-id
//! counter) lets the contracts speak of them as maps: username to password,
//! and task id to task.

use vstd::prelude::*;
use crate::errors::{LoginError, RegisterError, TaskError};
use crate::EpochSeconds;

verus! {

/// A task owned by one account. `created_at` is in seconds since the Unix
/// epoch. `owner` is a plain back-reference to a username; it is not
/// validated against the account set.
pub struct Task {
    pub id: u64,
    pub title: String,
    pub description: String,
    pub completed: bool,
    pub created_at: i64,
    pub owner: String,
}

/// The mathematical value of a [`Task`].
pub struct TaskV {
    pub id: u64,
    pub title: Seq<char>,
    pub description: Seq<char>,
    pub completed: bool,
    pub created_at: i64,
    pub owner: Seq<char>,
}

impl View for Task {
    type V = TaskV;

    open spec fn view(&self) -> TaskV {
        TaskV {
            id: self.id,
            title: self.title@,
            description: self.description@,
            completed: self.completed,
            created_at: self.created_at,
            owner: self.owner@,
        }
    }
}

impl Task {
    /// A deep copy; unlike a derived `Clone`, its contract pins the value.
    pub fn duplicate(&self) -> (t: Task)
        ensures
            t@ == self@,
    {
        Task {
            id: self.id,
            title: self.title.clone(),
            description: self.description.clone(),
            completed: self.completed,
            created_at: self.created_at,
            owner: self.owner.clone(),
        }
    }
}

/// A registered account: a username and its plaintext password. Credentials
/// are compared by exact string equality; hashing is out of scope here.
pub struct Account {
    pub username: String,
    pub password: String,
}

/// The mathematical value of an [`Account`].
pub struct AccountV {
    pub username: Seq<char>,
    pub password: Seq<char>,
}

impl View for Account {
    type V = AccountV;

    open spec fn view(&self) -> AccountV {
        AccountV { username: self.username@, password: self.password@ }
    }
}

/// The values of a task vector, element for element.
pub open spec fn task_views(s: Seq<Task>) -> Seq<TaskV> {
    s.map_values(|t: Task| t@)
}

/// The values of an account vector, element for element.
pub open spec fn account_views(s: Seq<Account>) -> Seq<AccountV> {
    s.map_values(|a: Account| a@)
}

/// The account list as a map from username to password.
pub open spec fn account_map(s: Seq<AccountV>) -> Map<Seq<char>, Seq<char>>
    decreases s.len(),
{
    if s.len() == 0 {
        Map::empty()
    } else {
        account_map(s.drop_last()).insert(s.last().username, s.last().password)
    }
}

/// The task list as a map from task id to task.
pub open spec fn task_map(s: Seq<TaskV>) -> Map<u64, TaskV>
    decreases s.len(),
{
    if s.len() == 0 {
        Map::empty()
    } else {
        task_map(s.drop_last()).insert(s.last().id, s.last())
    }
}

/// No two accounts share a username.
pub open spec fn unique_usernames(s: Seq<AccountV>) -> bool {
    forall|i: int, j: int| 0 <= i < j < s.len() ==> s[i].username != s[j].username
}

/// No two tasks share an id.
pub open spec fn unique_ids(s: Seq<TaskV>) -> bool {
    forall|i: int, j: int| 0 <= i < j < s.len() ==> s[i].id != s[j].id
}

/// A username is a key of the account map exactly when some account in the
/// list carries it.
pub proof fn lemma_account_map_contains(s: Seq<AccountV>)
    ensures
        forall|k: Seq<char>|
            #[trigger] account_map(s).contains_key(k) <==> exists|i: int|
                0 <= i < s.len() && s[i].username == k,
    decreases s.len(),
{
    if s.len() > 0 {
        lemma_account_map_contains(s.drop_last());
        assert forall|k: Seq<char>|
            #[trigger] account_map(s).contains_key(k) <==> exists|i: int|
                0 <= i < s.len() && s[i].username == k by {
            if account_map(s).contains_key(k) {
                if k == s.last().username {
                    assert(s[s.len() - 1].username == k);
                } else {
                    assert(account_map(s.drop_last()).contains_key(k));
                    let i = choose|i: int|
                        0 <= i < s.drop_last().len() && s.drop_last()[i].username == k;
                    assert(s.drop_last()[i] == s[i]);
                    assert(s[i].username == k);
                }
            }
            if exists|i: int| 0 <= i < s.len() && s[i].username == k {
                let i = choose|i: int| 0 <= i < s.len() && s[i].username == k;
                if i < s.len() - 1 {
                    assert(0 <= i < s.drop_last().len() && s.drop_last()[i].username == k);
                    assert(account_map(s.drop_last()).contains_key(k));
                }
            }
        }
    }
}

/// With unique usernames, the map sends each listed username to that
/// account's password.
pub proof fn lemma_account_map_idx(s: Seq<AccountV>, i: int)
    requires
        unique_usernames(s),
        0 <= i < s.len(),
    ensures
        account_map(s).contains_key(s[i].username),
        account_map(s)[s[i].username] == s[i].password,
    decreases s.len(),
{
    if i < s.len() - 1 {
        assert(s.drop_last()[i] == s[i]);
        lemma_account_map_idx(s.drop_last(), i);
        assert(s[i].username != s.last().username);
    }
}

/// A task id is a key of the task map exactly when some task in the list
/// carries it.
pub proof fn lemma_task_map_contains(s: Seq<TaskV>)
    ensures
        forall|k: u64|
            #[trigger] task_map(s).contains_key(k) <==> exists|i: int|
                0 <= i < s.len() && s[i].id == k,
    decreases s.len(),
{
    if s.len() > 0 {
        lemma_task_map_contains(s.drop_last());
        assert forall|k: u64|
            #[trigger] task_map(s).contains_key(k) <==> exists|i: int|
                0 <= i < s.len() && s[i].id == k by {
            if task_map(s).contains_key(k) {
                if k == s.last().id {
                    assert(s[s.len() - 1].id == k);
                } else {
                    assert(task_map(s.drop_last()).contains_key(k));
                    let i = choose|i: int| 0 <= i < s.drop_last().len() && s.drop_last()[i].id == k;
                    assert(s.drop_last()[i] == s[i]);
                    assert(s[i].id == k);
                }
            }
            if exists|i: int| 0 <= i < s.len() && s[i].id == k {
                let i = choose|i: int| 0 <= i < s.len() && s[i].id == k;
                if i < s.len() - 1 {
                    assert(0 <= i < s.drop_last().len() && s.drop_last()[i].id == k);
                    assert(task_map(s.drop_last()).contains_key(k));
                }
            }
        }
    }
}

/// With unique ids, the map sends each listed id to that task.
pub proof fn lemma_task_map_idx(s: Seq<TaskV>, i: int)
    requires
        unique_ids(s),
        0 <= i < s.len(),
    ensures
        task_map(s).contains_key(s[i].id),
        task_map(s)[s[i].id] == s[i],
    decreases s.len(),
{
    if i < s.len() - 1 {
        assert(s.drop_last()[i] == s[i]);
        lemma_task_map_idx(s.drop_last(), i);
        assert(s[i].id != s.last().id);
    }
}

/// Appending an account inserts its credentials into the map.
pub proof fn lemma_account_map_push(s: Seq<AccountV>, a: AccountV)
    ensures
        account_map(s.push(a)) == account_map(s).insert(a.username, a.password),
{
    assert(s.push(a).drop_last() =~= s);
    assert(s.push(a).last() == a);
}

/// Appending a task inserts it into the map under its id.
pub proof fn lemma_task_map_push(s: Seq<TaskV>, t: TaskV)
    ensures
        task_map(s.push(t)) == task_map(s).insert(t.id, t),
{
    assert(s.push(t).drop_last() =~= s);
    assert(s.push(t).last() == t);
}

/// With unique ids, removing the task at one position removes its id from
/// the map.
pub proof fn lemma_task_map_remove(s: Seq<TaskV>, j: int)
    requires
        unique_ids(s),
        0 <= j < s.len(),
    ensures
        task_map(s.remove(j)) == task_map(s).remove(s[j].id),
    decreases s.len(),
{
    lemma_task_map_contains(s.drop_last());
    if j == s.len() - 1 {
        assert(s.remove(j) =~= s.drop_last());
        assert(forall|i: int| 0 <= i < s.drop_last().len() ==> s.drop_last()[i].id != s[j].id);
        assert(!task_map(s.drop_last()).contains_key(s[j].id));
        assert(task_map(s.drop_last()).insert(s.last().id, s.last()).remove(s[j].id)
            =~= task_map(s.drop_last()));
    } else {
        assert(unique_ids(s.drop_last()));
        lemma_task_map_remove(s.drop_last(), j);
        assert(s.remove(j).drop_last() =~= s.drop_last().remove(j));
        assert(s.remove(j).last() == s.last());
        assert(s[j].id != s.last().id);
        assert(task_map(s.drop_last()).remove(s[j].id).insert(s.last().id, s.last())
            =~= task_map(s.drop_last()).insert(s.last().id, s.last()).remove(s[j].id));
    }
}

/// `login` succeeds exactly on a registered username with its password.
pub open spec fn login_allowed(
    accounts: Map<Seq<char>, Seq<char>>,
    username: Seq<char>,
    password: Seq<char>,
) -> bool {
    accounts.contains_key(username) && accounts[username] == password
}

/// `register` succeeds exactly on a username not yet taken.
pub open spec fn register_allowed(
    accounts: Map<Seq<char>, Seq<char>>,
    username: Seq<char>,
) -> bool {
    !accounts.contains_key(username)
}

/// Relies on `chrono::Utc::now().timestamp()`: the current wall-clock time
/// as seconds since the Unix epoch. Nothing is promised of the value — the
/// clock may say anything.
#[verifier::external_body]
fn now_epoch_seconds() -> EpochSeconds {
    chrono::Utc::now().timestamp()
}

/// `v` lists all and only the tasks of `owner` in `tasks`, each equal to
/// its entry there, with pairwise distinct ids and in unspecified order.
pub open spec fn listing_of(tasks: Map<u64, TaskV>, owner: Seq<char>, v: Seq<TaskV>) -> bool {
    &&& forall|m: int|
        0 <= m < v.len() ==> {
            &&& (#[trigger] v[m]).owner == owner
            &&& tasks.contains_key(v[m].id)
            &&& tasks[v[m].id] == v[m]
        }
    &&& forall|id: u64|
        tasks.contains_key(id) && (#[trigger] tasks[id]).owner == owner ==> exists|m: int|
            0 <= m < v.len() && v[m].id == id
    &&& forall|m1: int, m2: int| 0 <= m1 < m2 < v.len() ==> v[m1].id != v[m2].id
}

/// The whole store: the account set, the task collection, the single active
/// session, and the monotone next-id counter.
pub struct TodoApp {
    accounts: Vec<Account>,
    tasks: Vec<Task>,
    current_user: Option<String>,
    next_task_id: u64,
}

impl TodoApp {
    /// The accounts as listed, in registration order.
    pub closed spec fn account_list(self) -> Seq<AccountV> {
        account_views(self.accounts@)
    }

    /// The tasks as listed, in creation order.
    pub closed spec fn task_list(self) -> Seq<TaskV> {
        task_views(self.tasks@)
    }

    /// The account set as a map from username to password.
    pub open spec fn account_set(self) -> Map<Seq<char>, Seq<char>> {
        account_map(self.account_list())
    }

    /// The task collection as a map from id to task.
    pub open spec fn task_set(self) -> Map<u64, TaskV> {
        task_map(self.task_list())
    }

    /// The currently authenticated username, if any.
    pub closed spec fn session(self) -> Option<Seq<char>> {
        match self.current_user {
            Some(u) => Some(u@),
            None => None,
        }
    }

    /// The id the next created task will get.
    pub closed spec fn next_id(self) -> u64 {
        self.next_task_id
    }

    /// Well-formedness: unique usernames, unique task ids, and every task id
    /// strictly below the next-id counter (ids are assigned monotonically).
    pub open spec fn wf(self) -> bool {
        &&& unique_usernames(self.account_list())
        &&& unique_ids(self.task_list())
        &&& self.next_id() >= 1
        &&& forall|i: int|
            0 <= i < self.task_list().len() ==> #[trigger] self.task_list()[i].id < self.next_id()
    }

    /// An empty store: no accounts, no tasks, nobody logged in, ids from 1.
    pub fn new() -> (s: TodoApp)
        ensures
            s.wf(),
            s.account_set() == Map::<Seq<char>, Seq<char>>::empty(),
            s.task_set() == Map::<u64, TaskV>::empty(),
            s.session() is None,
            s.next_id() == 1,
    {
        let s = TodoApp {
            accounts: Vec::new(),
            tasks: Vec::new(),
            current_user: None,
            next_task_id: 1,
        };
        proof {
            assert(s.account_list() =~= Seq::<AccountV>::empty());
            assert(s.task_list() =~= Seq::<TaskV>::empty());
        }
        s
    }

    /// The index of the account with this username, if registered.
    fn find_account(&self, username: &String) -> (r: Option<usize>)
        requires
            self.wf(),
        ensures
            match r {
                Some(i) => {
                    &&& 0 <= i < self.account_list().len()
                    &&& self.account_list()[i as int].username == username@
                    &&& self.account_set().contains_key(username@)
                    &&& self.account_set()[username@] == self.account_list()[i as int].password
                },
                None => !self.account_set().contains_key(username@),
            },
    {
        proof {
            lemma_account_map_contains(self.account_list());
        }
        let n = self.accounts.len();
        let mut i: usize = 0;
        while i < n
            invariant
                self.wf(),
                n == self.accounts@.len(),
                0 <= i <= n,
                forall|j: int| 0 <= j < i ==> #[trigger] self.account_list()[j].username != username@,
            decreases n - i,
        {
            if self.accounts[i].username == *username {
                proof {
                    lemma_account_map_idx(self.account_list(), i as int);
                }
                return Some(i);
            }
            i += 1;
        }
        None
    }

    /// Register a new account. Fails with `DuplicateAccount` when the
    /// username is taken; the account set is then unchanged. Registration
    /// does not authenticate the new account.
    pub fn register(&mut self, username: String, password: String) -> (r: Result<
        (),
        RegisterError,
    >)
        requires
            old(self).wf(),
        ensures
            final(self).wf(),
            final(self).session() == old(self).session(),
            final(self).task_set() == old(self).task_set(),
            final(self).next_id() == old(self).next_id(),
            match r {
                Ok(()) => {
                    &&& register_allowed(old(self).account_set(), username@)
                    &&& final(self).account_set() == old(self).account_set().insert(
                        username@,
                        password@,
                    )
                },
                Err(RegisterError::DuplicateAccount) => {
                    &&& !register_allowed(old(self).account_set(), username@)
                    &&& final(self).account_set() == old(self).account_set()
                },
            },
    {
        if self.find_account(&username).is_some() {
            return Err(RegisterError::DuplicateAccount);
        }
        proof {
            lemma_account_map_contains(self.account_list());
            lemma_account_map_push(self.account_list(), AccountV {
                username: username@,
                password: password@,
            });
        }
        let ghost prior = self.account_list();
        self.accounts.push(Account { username, password });
        proof {
            assert(self.account_list() =~= prior.push(self.account_list().last()));
            assert forall|i: int, j: int| 0 <= i < j < self.account_list().len() implies self
                .account_list()[i].username != self.account_list()[j].username by {
                if j == self.account_list().len() - 1 {
                    assert(prior[i] == self.account_list()[i]);
                }
            }
            assert(self.task_list() =~= old(self).task_list());
        }
        Ok(())
    }

    /// Authenticate as `username`. Fails with `InvalidCredentials` when the
    /// username is unknown or the password differs — the two causes are not
    /// distinguishable. On success the session holds that username. The
    /// account set, tasks and counter are never touched.
    pub fn login(&mut self, username: String, password: String) -> (r: Result<(), LoginError>)
        requires
            old(self).wf(),
        ensures
            final(self).wf(),
            final(self).account_set() == old(self).account_set(),
            final(self).task_set() == old(self).task_set(),
            final(self).next_id() == old(self).next_id(),
            match r {
                Ok(()) => {
                    &&& login_allowed(old(self).account_set(), username@, password@)
                    &&& final(self).session() == Some(username@)
                },
                Err(LoginError::InvalidCredentials) => {
                    &&& !login_allowed(old(self).account_set(), username@, password@)
                    &&& final(self).session() == old(self).session()
                },
            },
    {
        match self.find_account(&username) {
            Some(i) => {
                if self.accounts[i].password == password {
                    self.current_user = Some(username);
                    Ok(())
                } else {
                    Err(LoginError::InvalidCredentials)
                }
            },
            None => Err(LoginError::InvalidCredentials),
        }
    }

    /// Clear the active session. Always succeeds; nothing else changes.
    pub fn logout(&mut self)
        requires
            old(self).wf(),
        ensures
            final(self).wf(),
            final(self).session() is None,
            final(self).account_set() == old(self).account_set(),
            final(self).task_set() == old(self).task_set(),
            final(self).next_id() == old(self).next_id(),
    {
        self.current_user = None;
    }

    /// The index of the task with this id, if present.
    fn find_task(&self, id: u64) -> (r: Option<usize>)
        requires
            self.wf(),
        ensures
            match r {
                Some(j) => {
                    &&& 0 <= j < self.task_list().len()
                    &&& self.task_list()[j as int].id == id
                    &&& self.task_set().contains_key(id)
                    &&& self.task_set()[id] == self.task_list()[j as int]
                },
                None => !self.task_set().contains_key(id),
            },
    {
        proof {
            lemma_task_map_contains(self.task_list());
        }
        let n = self.tasks.len();
        let mut j: usize = 0;
        while j < n
            invariant
                self.wf(),
                n == self.tasks@.len(),
                0 <= j <= n,
                forall|m: int| 0 <= m < j ==> #[trigger] self.task_list()[m].id != id,
            decreases n - j,
        {
            if self.tasks[j].id == id {
                proof {
                    lemma_task_map_idx(self.task_list(), j as int);
                }
                return Some(j);
            }
            j += 1;
        }
        None
    }

    /// Create a task with the given creation timestamp. Requires an active
    /// session; the new task gets the next id, belongs to the session's
    /// account, and starts uncompleted. The new id was not in use before.
    pub fn add_task_at(
        &mut self,
        title: String,
        description: String,
        created_at: EpochSeconds,
    ) -> (r: Result<u64, TaskError>)
        requires
            old(self).wf(),
            old(self).next_id() < u64::MAX,
        ensures
            final(self).wf(),
            final(self).account_set() == old(self).account_set(),
            final(self).session() == old(self).session(),
            match r {
                Ok(id) => {
                    &&& old(self).session() matches Some(owner) && final(self).task_set() == old(
                        self,
                    ).task_set().insert(
                        id,
                        (TaskV {
                            id,
                            title: title@,
                            description: description@,
                            completed: false,
                            created_at,
                            owner,
                        }),
                    )
                    &&& id == old(self).next_id()
                    &&& !old(self).task_set().contains_key(id)
                    &&& final(self).next_id() == old(self).next_id() + 1
                },
                Err(TaskError::NotAuthenticated) => {
                    &&& old(self).session() is None
                    &&& final(self).task_set() == old(self).task_set()
                    &&& final(self).next_id() == old(self).next_id()
                },
                Err(_) => false,
            },
    {
        let owner = match self.current_account() {
            Some(u) => u,
            None => {
                return Err(TaskError::NotAuthenticated);
            },
        };
        let id = self.next_task_id;
        let task = Task { id, title, description, completed: false, created_at, owner };
        proof {
            lemma_task_map_contains(self.task_list());
            lemma_task_map_push(self.task_list(), task@);
        }
        let ghost prior = self.task_list();
        self.tasks.push(task);
        self.next_task_id = id + 1;
        proof {
            assert(self.task_list() =~= prior.push(self.task_list().last()));
            assert forall|i: int, j: int| 0 <= i < j < self.task_list().len() implies self
                .task_list()[i].id != self.task_list()[j].id by {
                if j == self.task_list().len() - 1 {
                    assert(prior[i] == self.task_list()[i]);
                }
            }
            assert(self.account_list() =~= old(self).account_list());
        }
        Ok(id)
    }

    /// Create a task stamped with the current wall-clock time. Same contract
    /// as [`Self::add_task_at`], except that the creation timestamp is
    /// whatever the clock returned.
    pub fn add_task(&mut self, title: String, description: String) -> (r: Result<u64, TaskError>)
        requires
            old(self).wf(),
            old(self).next_id() < u64::MAX,
        ensures
            final(self).wf(),
            final(self).account_set() == old(self).account_set(),
            final(self).session() == old(self).session(),
            match r {
                Ok(id) => {
                    &&& old(self).session() matches Some(owner) && exists|ts: EpochSeconds|
                        final(self).task_set() == old(self).task_set().insert(
                            id,
                            (TaskV {
                                id,
                                title: title@,
                                description: description@,
                                completed: false,
                                created_at: ts,
                                owner,
                            }),
                        )
                    &&& id == old(self).next_id()
                    &&& !old(self).task_set().contains_key(id)
                    &&& final(self).next_id() == old(self).next_id() + 1
                },
                Err(TaskError::NotAuthenticated) => {
                    &&& old(self).session() is None
                    &&& final(self).task_set() == old(self).task_set()
                    &&& final(self).next_id() == old(self).next_id()
                },
                Err(_) => false,
            },
    {
        let now = now_epoch_seconds();
        self.add_task_at(title, description, now)
    }

    /// Mark a task completed. Requires an active session; fails with
    /// `TaskNotFound` when no task has this id, and with `NotAuthorized`
    /// when the task belongs to another account. On failure nothing changes.
    pub fn complete_task(&mut self, id: u64) -> (r: Result<(), TaskError>)
        requires
            old(self).wf(),
        ensures
            final(self).wf(),
            final(self).account_set() == old(self).account_set(),
            final(self).session() == old(self).session(),
            final(self).next_id() == old(self).next_id(),
            match r {
                Ok(()) => {
                    &&& old(self).session() matches Some(u)
                    &&& old(self).task_set().contains_key(id)
                    &&& old(self).task_set()[id].owner == old(self).session()->0
                    &&& final(self).task_set() == old(self).task_set().insert(
                        id,
                        (TaskV { completed: true, ..old(self).task_set()[id] }),
                    )
                },
                Err(e) => {
                    &&& final(self).task_set() == old(self).task_set()
                    &&& match e {
                        TaskError::NotAuthenticated => old(self).session() is None,
                        TaskError::TaskNotFound => old(self).session() is Some && !old(
                            self,
                        ).task_set().contains_key(id),
                        TaskError::NotAuthorized => {
                            &&& old(self).session() is Some
                            &&& old(self).task_set().contains_key(id)
                            &&& old(self).task_set()[id].owner != old(self).session()->0
                        },
                    }
                },
            },
    {
        let user = match self.current_account() {
            Some(u) => u,
            None => {
                return Err(TaskError::NotAuthenticated);
            },
        };
        let j = match self.find_task(id) {
            Some(j) => j,
            None => {
                return Err(TaskError::TaskNotFound);
            },
        };
        if self.tasks[j].owner != user {
            return Err(TaskError::NotAuthorized);
        }
        let prior_task = self.tasks.remove(j);
        let updated = Task { completed: true, ..prior_task };
        proof {
            lemma_task_map_remove(old(self).task_list(), j as int);
            assert(self.task_list() =~= old(self).task_list().remove(j as int));
            lemma_task_map_push(self.task_list(), updated@);
        }
        let ghost mid = self.task_list();
        self.tasks.push(updated);
        proof {
            assert(self.task_list() =~= mid.push(updated@));
            self.lemma_reinsert(*old(self), mid, j as int, updated@);
        }
        Ok(())
    }

    /// Replace a task's title and description, leaving its id, owner,
    /// completion state and creation time untouched. Same failure cases as
    /// [`Self::complete_task`]; on failure nothing changes.
    pub fn edit_task(&mut self, id: u64, title: String, description: String) -> (r: Result<
        (),
        TaskError,
    >)
        requires
            old(self).wf(),
        ensures
            final(self).wf(),
            final(self).account_set() == old(self).account_set(),
            final(self).session() == old(self).session(),
            final(self).next_id() == old(self).next_id(),
            match r {
                Ok(()) => {
                    &&& old(self).session() matches Some(u)
                    &&& old(self).task_set().contains_key(id)
                    &&& old(self).task_set()[id].owner == old(self).session()->0
                    &&& final(self).task_set() == old(self).task_set().insert(
                        id,
                        (TaskV {
                            title: title@,
                            description: description@,
                            ..old(self).task_set()[id]
                        }),
                    )
                },
                Err(e) => {
                    &&& final(self).task_set() == old(self).task_set()
                    &&& match e {
                        TaskError::NotAuthenticated => old(self).session() is None,
                        TaskError::TaskNotFound => old(self).session() is Some && !old(
                            self,
                        ).task_set().contains_key(id),
                        TaskError::NotAuthorized => {
                            &&& old(self).session() is Some
                            &&& old(self).task_set().contains_key(id)
                            &&& old(self).task_set()[id].owner != old(self).session()->0
                        },
                    }
                },
            },
    {
        let user = match self.current_account() {
            Some(u) => u,
            None => {
                return Err(TaskError::NotAuthenticated);
            },
        };
        let j = match self.find_task(id) {
            Some(j) => j,
            None => {
                return Err(TaskError::TaskNotFound);
            },
        };
        if self.tasks[j].owner != user {
            return Err(TaskError::NotAuthorized);
        }
        let prior_task = self.tasks.remove(j);
        let updated = Task { title, description, ..prior_task };
        proof {
            lemma_task_map_remove(old(self).task_list(), j as int);
            assert(self.task_list() =~= old(self).task_list().remove(j as int));
            lemma_task_map_push(self.task_list(), updated@);
        }
        let ghost mid = self.task_list();
        self.tasks.push(updated);
        proof {
            assert(self.task_list() =~= mid.push(updated@));
            self.lemma_reinsert(*old(self), mid, j as int, updated@);
        }
        Ok(())
    }

    /// Remove a task. Same failure cases as [`Self::complete_task`]; on
    /// failure nothing changes.
    pub fn delete_task(&mut self, id: u64) -> (r: Result<(), TaskError>)
        requires
            old(self).wf(),
        ensures
            final(self).wf(),
            final(self).account_set() == old(self).account_set(),
            final(self).session() == old(self).session(),
            final(self).next_id() == old(self).next_id(),
            match r {
                Ok(()) => {
                    &&& old(self).session() matches Some(u)
                    &&& old(self).task_set().contains_key(id)
                    &&& old(self).task_set()[id].owner == old(self).session()->0
                    &&& final(self).task_set() == old(self).task_set().remove(id)
                },
                Err(e) => {
                    &&& final(self).task_set() == old(self).task_set()
                    &&& match e {
                        TaskError::NotAuthenticated => old(self).session() is None,
                        TaskError::TaskNotFound => old(self).session() is Some && !old(
                            self,
                        ).task_set().contains_key(id),
                        TaskError::NotAuthorized => {
                            &&& old(self).session() is Some
                            &&& old(self).task_set().contains_key(id)
                            &&& old(self).task_set()[id].owner != old(self).session()->0
                        },
                    }
                },
            },
    {
        let user = match self.current_account() {
            Some(u) => u,
            None => {
                return Err(TaskError::NotAuthenticated);
            },
        };
        let j = match self.find_task(id) {
            Some(j) => j,
            None => {
                return Err(TaskError::TaskNotFound);
            },
        };
        if self.tasks[j].owner != user {
            return Err(TaskError::NotAuthorized);
        }
        self.tasks.remove(j);
        proof {
            lemma_task_map_remove(old(self).task_list(), j as int);
            assert(self.task_list() =~= old(self).task_list().remove(j as int));
            assert forall|a: int, b: int| 0 <= a < b < self.task_list().len() implies self
                .task_list()[a].id != self.task_list()[b].id by {}
            assert(self.account_list() =~= old(self).account_list());
        }
        Ok(())
    }

    /// Removing the task at `j` from a well-formed list and appending a
    /// replacement under the same id leaves the map with that id re-bound
    /// and keeps the list well-formed.
    proof fn lemma_reinsert(self, prior: TodoApp, mid: Seq<TaskV>, j: int, t: TaskV)
        requires
            prior.wf(),
            0 <= j < prior.task_list().len(),
            t.id == prior.task_list()[j].id,
            t.id < prior.next_id(),
            mid == prior.task_list().remove(j),
            self.task_list() == mid.push(t),
            self.next_id() == prior.next_id(),
            self.account_list() == prior.account_list(),
        ensures
            self.wf(),
            self.task_set() == prior.task_set().insert(t.id, t),
    {
        lemma_task_map_remove(prior.task_list(), j);
        lemma_task_map_push(mid, t);
        assert(self.task_set() == prior.task_set().remove(t.id).insert(t.id, t));
        assert(prior.task_set().remove(t.id).insert(t.id, t) =~= prior.task_set().insert(
            t.id,
            t,
        ));
        assert forall|a: int, b: int| 0 <= a < b < self.task_list().len() implies self.task_list()[
            a
        ].id != self.task_list()[b].id by {
            if b == self.task_list().len() - 1 {
                assert(self.task_list()[a] == mid[a]);
                lemma_task_map_contains(mid);
                lemma_task_map_idx(mid, a);
                if self.task_list()[a].id == t.id {
                    assert(mid[a].id == prior.task_list()[j].id);
                }
            }
        }
        assert forall|i: int| 0 <= i < self.task_list().len() implies #[trigger] self.task_list()[
            i
        ].id < self.next_id() by {
            if i < self.task_list().len() - 1 {
                assert(self.task_list()[i] == mid[i]);
            }
        }
    }

    /// All and only the active account's tasks, in unspecified order, with
    /// pairwise distinct ids, each equal to its entry in the task map.
    /// Requires an active session, else fails with `NotAuthenticated`.
    #[verifier::rlimit(60)]
    pub fn list_tasks(&self) -> (r: Result<Vec<Task>, TaskError>)
        requires
            self.wf(),
        ensures
            match r {
                Ok(v) => self.session() matches Some(u) && listing_of(
                    self.task_set(),
                    u,
                    task_views(v@),
                ),
                Err(TaskError::NotAuthenticated) => self.session() is None,
                Err(_) => false,
            },
    {
        let user = match self.current_account() {
            Some(u) => u,
            None => {
                return Err(TaskError::NotAuthenticated);
            },
        };
        proof {
            lemma_task_map_contains(self.task_list());
        }
        let n = self.tasks.len();
        let mut out: Vec<Task> = Vec::new();
        let mut i: usize = 0;
        while i < n
            invariant
                self.wf(),
                self.session() == Some(user@),
                n == self.tasks@.len(),
                0 <= i <= n,
                forall|m: int|
                    0 <= m < out@.len() ==> (#[trigger] out@[m])@.owner == user@ && exists|j: int|
                        0 <= j < i && out@[m]@ == self.task_list()[j],
                forall|j: int|
                    0 <= j < i && (#[trigger] self.task_list()[j]).owner == user@ ==> exists|m: int|
                        0 <= m < out@.len() && out@[m]@.id == self.task_list()[j].id,
                forall|m1: int, m2: int| 0 <= m1 < m2 < out@.len() ==> out@[m1]@.id != out@[m2]@.id,
            decreases n - i,
        {
            let t = &self.tasks[i];
            proof {
                assert(self.task_list()[i as int] == self.tasks@[i as int]@);
            }
            if t.owner == user {
                let ghost prior_out = out@;
                out.push(t.duplicate());
                proof {
                    assert(out@[out@.len() - 1]@ == self.task_list()[i as int]);
                    assert forall|m: int| 0 <= m < out@.len() implies (#[trigger] out@[m])@.owner
                        == user@ && exists|j: int|
                        0 <= j < i + 1 && out@[m]@ == self.task_list()[j] by {
                        if m < out@.len() - 1 {
                            assert(out@[m] == prior_out[m]);
                            let j = choose|j: int|
                                0 <= j < i && prior_out[m]@ == self.task_list()[j];
                            assert(0 <= j < i + 1 && out@[m]@ == self.task_list()[j]);
                        } else {
                            assert(out@[m]@ == self.task_list()[i as int]);
                        }
                    }
                    assert forall|j: int|
                        0 <= j < i + 1 && (#[trigger] self.task_list()[j]).owner
                            == user@ implies exists|m: int|
                        0 <= m < out@.len() && out@[m]@.id == self.task_list()[j].id by {
                        if j == i {
                            assert(out@[out@.len() - 1]@.id == self.task_list()[j].id);
                        } else {
                            let m = choose|m: int|
                                0 <= m < prior_out.len() && prior_out[m]@.id == self.task_list()[
                                    j
                                ].id;
                            assert(out@[m]@.id == self.task_list()[j].id);
                        }
                    }
                    assert forall|m1: int, m2: int| 0 <= m1 < m2 < out@.len() implies out@[m1]@.id
                        != out@[m2]@.id by {
                        if m2 == out@.len() - 1 {
                            let j = choose|j: int|
                                0 <= j < i && prior_out[m1]@ == self.task_list()[j];
                            assert(self.task_list()[j].id != self.task_list()[i as int].id);
                        }
                    }
                }
            }
            i += 1;
        }
        proof {
            let lv = task_views(out@);
            assert(lv.len() == out@.len());
            assert(forall|m: int| 0 <= m < lv.len() ==> lv[m] == (#[trigger] out@[m])@);
            assert forall|m: int| 0 <= m < lv.len() implies {
                &&& (#[trigger] lv[m]).owner == user@
                &&& self.task_set().contains_key(lv[m].id)
                &&& self.task_set()[lv[m].id] == lv[m]
            } by {
                let j = choose|j: int| 0 <= j < n && out@[m]@ == self.task_list()[j];
                lemma_task_map_idx(self.task_list(), j);
            }
            assert forall|id: u64|
                self.task_set().contains_key(id) && (#[trigger] self.task_set()[id]).owner
                    == user@ implies exists|m: int| 0 <= m < lv.len() && lv[m].id == id by {
                let j = choose|j: int| 0 <= j < self.task_list().len() && self.task_list()[j].id
                    == id;
                lemma_task_map_idx(self.task_list(), j);
                assert(self.task_list()[j].owner == user@);
                let m = choose|m: int| 0 <= m < out@.len() && out@[m]@.id == id;
                assert(lv[m].id == id);
            }
            assert(listing_of(self.task_set(), user@, lv));
        }
        Ok(out)
    }

    /// The currently authenticated username, or `None` when nobody is
    /// logged in.
    pub fn current_account(&self) -> (r: Option<String>)
        ensures
            match r {
                Some(u) => self.session() == Some(u@),
                None => self.session() is None,
            },
    {
        match &self.current_user {
            Some(u) => Some(u.clone()),
            None => None,
        }
    }

    /// How many accounts are registered.
    pub fn account_count(&self) -> (n: usize)
        ensures
            n == self.account_list().len(),
    {
        self.accounts.len()
    }

    /// The id the next created task will get.
    pub fn next_id_value(&self) -> (n: u64)
        ensures
            n == self.next_id(),
    {
        self.next_task_id
    }

    /// The full task snapshot, ready to be persisted.
    pub fn tasks_snapshot(&self) -> (r: String)
        ensures
            r@ == crate::codec::pr_tasks_file(self.task_list()),
    {
        crate::codec::encode_tasks(&self.tasks)
    }

    /// The full account snapshot, ready to be persisted.
    pub fn accounts_snapshot(&self) -> (r: String)
        ensures
            r@ == crate::codec::pr_accounts_file(self.account_list()),
    {
        crate::codec::encode_accounts(&self.accounts)
    }

    /// Restore a store from its two snapshots; an empty text stands for an
    /// empty collection, as on a first run. Nobody is logged in afterwards,
    /// and the next-id counter is one more than the largest restored id (or
    /// one, if no task was restored). Fails on malformed text, on duplicate
    /// ids or usernames, and on an id too large to assign a successor to.
    pub fn from_snapshots(tasks_text: &str, accounts_text: &str) -> (r: Option<TodoApp>)
        ensures
            match r {
                Some(s) => {
                    &&& s.wf()
                    &&& s.session() is None
                    &&& crate::codec::sp_tasks_file(tasks_text@) == Some(s.task_list())
                    &&& crate::codec::sp_accounts_file(accounts_text@) == Some(s.account_list())
                    &&& (s.next_id() == 1 || exists|i: int|
                        0 <= i < s.task_list().len() && (#[trigger] s.task_list()[i]).id + 1
                            == s.next_id())
                },
                None => {
                    ||| crate::codec::sp_tasks_file(tasks_text@) is None
                    ||| crate::codec::sp_accounts_file(accounts_text@) is None
                    ||| (crate::codec::sp_tasks_file(tasks_text@) matches Some(ts) && (!unique_ids(
                        ts,
                    ) || exists|i: int| 0 <= i < ts.len() && (#[trigger] ts[i]).id == u64::MAX))
                    ||| (crate::codec::sp_accounts_file(accounts_text@) matches Some(accs)
                        && !unique_usernames(accs))
                },
            },
    {
        let tasks = match crate::codec::decode_tasks(tasks_text) {
            None => {
                return None;
            },
            Some(v) => v,
        };
        let accounts = match crate::codec::decode_accounts(accounts_text) {
            None => {
                return None;
            },
            Some(v) => v,
        };
        if !ids_unique(&tasks) {
            return None;
        }
        if !usernames_unique(&accounts) {
            return None;
        }
        let ghost lv = task_views(tasks@);
        let n = tasks.len();
        let mut next: u64 = 1;
        let mut i: usize = 0;
        while i < n
            invariant
                0 <= i <= n,
                n == tasks@.len(),
                lv == task_views(tasks@),
                next >= 1,
                crate::codec::sp_tasks_file(tasks_text@) == Some(lv),
                forall|j: int| 0 <= j < i ==> (#[trigger] lv[j]).id < next,
                next == 1 || exists|j: int| 0 <= j < i && (#[trigger] lv[j]).id + 1 == next,
            decreases n - i,
        {
            let id = tasks[i].id;
            proof {
                assert(lv[i as int].id == id);
            }
            if id == u64::MAX {
                proof {
                    assert(crate::codec::sp_tasks_file(tasks_text@) == Some(lv));
                    assert(0 <= i < lv.len() && lv[i as int].id == u64::MAX);
                    assert(exists|k: int| 0 <= k < lv.len() && (#[trigger] lv[k]).id == u64::MAX);
                }
                return None;
            }
            if id + 1 > next {
                next = id + 1;
                proof {
                    assert(lv[i as int].id + 1 == next);
                }
            }
            i += 1;
        }
        let s = TodoApp { accounts, tasks, current_user: None, next_task_id: next };
        proof {
            assert(s.task_list() == lv);
        }
        Some(s)
    }
}

/// Whether all task ids in the vector are pairwise distinct.
fn ids_unique(tasks: &Vec<Task>) -> (b: bool)
    ensures
        b == unique_ids(task_views(tasks@)),
{
    let ghost lv = task_views(tasks@);
    let n = tasks.len();
    let mut i: usize = 0;
    while i < n
        invariant
            0 <= i <= n,
            n == tasks@.len(),
            lv == task_views(tasks@),
            forall|a: int, b2: int| 0 <= a < b2 < n && a < i ==> lv[a].id != lv[b2].id,
        decreases n - i,
    {
        let mut j: usize = i + 1;
        while j < n
            invariant
                0 <= i < j <= n,
                n == tasks@.len(),
                lv == task_views(tasks@),
                forall|b2: int| i < b2 < j ==> lv[i as int].id != lv[b2].id,
            decreases n - j,
        {
            if tasks[i].id == tasks[j].id {
                proof {
                    assert(lv[i as int].id == lv[j as int].id);
                }
                return false;
            }
            j += 1;
        }
        i += 1;
    }
    true
}

/// Whether all usernames in the vector are pairwise distinct.
fn usernames_unique(accounts: &Vec<Account>) -> (b: bool)
    ensures
        b == unique_usernames(account_views(accounts@)),
{
    let ghost lv = account_views(accounts@);
    let n = accounts.len();
    let mut i: usize = 0;
    while i < n
        invariant
            0 <= i <= n,
            n == accounts@.len(),
            lv == account_views(accounts@),
            forall|a: int, b2: int| 0 <= a < b2 < n && a < i ==> lv[a].username != lv[b2].username,
        decreases n - i,
    {
        let mut j: usize = i + 1;
        while j < n
            invariant
                0 <= i < j <= n,
                n == accounts@.len(),
                lv == account_views(accounts@),
                forall|b2: int| i < b2 < j ==> lv[i as int].username != lv[b2].username,
            decreases n - j,
        {
            if accounts[i].username == accounts[j].username {
                proof {
                    assert(lv[i as int].username == lv[j as int].username);
                }
                return false;
            }
            j += 1;
        }
        i += 1;
    }
    true
}

/// Restart round trip: parsing a well-formed store's printed snapshots
/// yields exactly its task and account lists — so a store restored from
/// them holds the same collections, element for element — and every task id
/// lies strictly below the id the store will assign next.
pub proof fn lemma_snapshot_restart(s: TodoApp)
    requires
        s.wf(),
        crate::codec::tasks_fit(s.task_list()),
        crate::codec::accounts_fit(s.account_list()),
    ensures
        crate::codec::sp_tasks_file(crate::codec::pr_tasks_file(s.task_list())) == Some(
            s.task_list(),
        ),
        crate::codec::sp_accounts_file(crate::codec::pr_accounts_file(s.account_list())) == Some(
            s.account_list(),
        ),
        forall|i: int|
            0 <= i < s.task_list().len() ==> (#[trigger] s.task_list()[i]).id < s.next_id(),
{
    crate::codec::lemma_roundtrip_tasks(s.task_list());
    crate::codec::lemma_roundtrip_accounts(s.account_list());
}

/// A username can be registered only once: after a successful registration,
/// a second attempt with the same username is refused — and by `register`'s
/// contract a refused attempt leaves the account set unchanged.
pub proof fn lemma_register_twice(
    accounts: Map<Seq<char>, Seq<char>>,
    username: Seq<char>,
    password: Seq<char>,
)
    requires
        register_allowed(accounts, username),
    ensures
        !register_allowed(accounts.insert(username, password), username),
{
}

/// Login rejects a wrong password for a known username and any password for
/// an unknown username through the same single error variant: nothing in
/// the outcome distinguishes the two causes.
pub proof fn lemma_login_no_leak(
    accounts: Map<Seq<char>, Seq<char>>,
    known: Seq<char>,
    wrong: Seq<char>,
    unknown: Seq<char>,
    any: Seq<char>,
)
    requires
        accounts.contains_key(known),
        accounts[known] != wrong,
        !accounts.contains_key(unknown),
    ensures
        !login_allowed(accounts, known, wrong),
        !login_allowed(accounts, unknown, any),
{
}

} // verus!
