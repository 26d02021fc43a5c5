//! The in-memory greetings store: greetings grouped by the name they were filed
//! under, each group in the order of arrival, the groups in the order in which
//! their names first appeared.

pub mod id;
pub mod timestamp;

use vstd::prelude::*;

use crate::db::id::{id_space, nth_id, IdGenerator};
use crate::db::timestamp::{timestamp_now, Timestamp};

verus! {

/// A greeting as the store keeps it.
#[derive(Debug)]
pub struct Greeting {
    pub id: u32,
    pub recipient_name: String,
    pub sender_name: String,
    pub message: String,
    pub timestamp: Timestamp,
}

/// What a caller hands the store to file a greeting.
#[derive(Debug)]
pub struct NewGreeting {
    pub recipient_name: String,
    pub sender_name: String,
    pub message: String,
}

/// The contents of a [`Greeting`].
pub struct GreetingView {
    pub id: u32,
    pub recipient_name: Seq<char>,
    pub sender_name: Seq<char>,
    pub message: Seq<char>,
    pub timestamp: Timestamp,
}

impl View for Greeting {
    type V = GreetingView;

    open spec fn view(&self) -> GreetingView {
        GreetingView {
            id: self.id,
            recipient_name: self.recipient_name@,
            sender_name: self.sender_name@,
            message: self.message@,
            timestamp: self.timestamp,
        }
    }
}

impl Clone for Greeting {
    fn clone(&self) -> (copy: Self)
        ensures
            copy@ == self@,
    {
        Greeting {
            id: self.id,
            recipient_name: self.recipient_name.clone(),
            sender_name: self.sender_name.clone(),
            message: self.message.clone(),
            timestamp: self.timestamp,
        }
    }
}

/// The contents of a sequence of greetings.
pub open spec fn greetings_view(greetings: Seq<Greeting>) -> Seq<GreetingView> {
    greetings.map_values(|g: Greeting| g@)
}

/// All greetings filed under one name, oldest first.
#[derive(Debug)]
pub struct RecipientGreetings {
    pub recipient_name: String,
    pub greetings: Vec<Greeting>,
}

impl View for RecipientGreetings {
    type V = (Seq<char>, Seq<GreetingView>);

    open spec fn view(&self) -> (Seq<char>, Seq<GreetingView>) {
        (self.recipient_name@, greetings_view(self.greetings@))
    }
}

/// The contents of a sequence of groups.
pub open spec fn entries_view(groups: Seq<RecipientGreetings>) -> Seq<(Seq<char>, Seq<GreetingView>)> {
    groups.map_values(|r: RecipientGreetings| r@)
}

/// Some group is filed under `name`.
pub open spec fn has_recipient(entries: Seq<(Seq<char>, Seq<GreetingView>)>, name: Seq<char>) -> bool {
    exists|i: int| 0 <= i < entries.len() && #[trigger] entries[i].0 == name
}

/// The position of the group filed under `name` (meaningful when there is one).
pub open spec fn recipient_index(entries: Seq<(Seq<char>, Seq<GreetingView>)>, name: Seq<char>) -> int {
    choose|i: int| 0 <= i < entries.len() && #[trigger] entries[i].0 == name
}

/// The greetings filed under `name`, if any.
pub open spec fn lookup(entries: Seq<(Seq<char>, Seq<GreetingView>)>, name: Seq<char>) -> Option<Seq<GreetingView>> {
    if has_recipient(entries, name) {
        Some(entries[recipient_index(entries, name)].1)
    } else {
        None
    }
}

/// No two groups are filed under the same name.
pub open spec fn names_distinct(entries: Seq<(Seq<char>, Seq<GreetingView>)>) -> bool {
    forall|i: int, j: int| 0 <= i < j < entries.len() ==> entries[i].0 != entries[j].0
}

/// The groups after filing `greeting` under `name`: appended to its group if the
/// name has one, else in a new group at the end.
pub open spec fn with_greeting(
    entries: Seq<(Seq<char>, Seq<GreetingView>)>,
    name: Seq<char>,
    greeting: GreetingView,
) -> Seq<(Seq<char>, Seq<GreetingView>)> {
    if has_recipient(entries, name) {
        let i = recipient_index(entries, name);
        entries.update(i, (name, entries[i].1.push(greeting)))
    } else {
        entries.push((name, seq![greeting]))
    }
}

/// The number of greetings in all groups.
pub open spec fn total_count(entries: Seq<(Seq<char>, Seq<GreetingView>)>) -> nat
    decreases entries.len(),
{
    if entries.len() == 0 {
        0
    } else {
        total_count(entries.drop_last()) + entries.last().1.len()
    }
}

/// All greetings, group after group.
pub open spec fn flatten(entries: Seq<(Seq<char>, Seq<GreetingView>)>) -> Seq<GreetingView>
    decreases entries.len(),
{
    if entries.len() == 0 {
        seq![]
    } else {
        flatten(entries.drop_last()) + entries.last().1
    }
}

/// The greeting that filing `greeting` with identifier `id` at `timestamp` stores.
pub open spec fn stored_greeting(id: u32, greeting: NewGreeting, timestamp: Timestamp) -> GreetingView {
    GreetingView {
        id,
        recipient_name: greeting.recipient_name@,
        sender_name: greeting.sender_name@,
        message: greeting.message@,
        timestamp,
    }
}

/// Every stored identifier is below `bound`, and no two stored greetings share one.
pub open spec fn ids_unique_below(entries: Seq<(Seq<char>, Seq<GreetingView>)>, bound: int) -> bool {
    &&& forall|i: int, j: int|
        0 <= i < entries.len() && 0 <= j < entries[i].1.len() ==> #[trigger] entries[i].1[j].id < bound
    &&& forall|i1: int, j1: int, i2: int, j2: int|
        0 <= i1 < entries.len() && 0 <= j1 < entries[i1].1.len() && 0 <= i2 < entries.len() && 0
            <= j2 < entries[i2].1.len() && (i1 != i2 || j1 != j2) ==> #[trigger] entries[i1].1[j1].id
            != #[trigger] entries[i2].1[j2].id
}

/// Every group holds at least one greeting, and every timestamp is one jiff can hold.
pub open spec fn groups_well_formed(entries: Seq<(Seq<char>, Seq<GreetingView>)>) -> bool {
    &&& forall|i: int| 0 <= i < entries.len() ==> #[trigger] entries[i].1.len() > 0
    &&& forall|i: int, j: int|
        0 <= i < entries.len() && 0 <= j < entries[i].1.len() ==> #[trigger] entries[i].1[j].timestamp.wf()
}

/// The greetings of a name after `greeting` is filed under it: the earlier ones
/// (none when the name had no group) followed by `greeting`.
pub open spec fn appended(earlier: Option<Seq<GreetingView>>, greeting: GreetingView) -> Seq<GreetingView> {
    match earlier {
        Some(greetings) => greetings.push(greeting),
        None => seq![greeting],
    }
}

/// Why the store could not file a greeting.
#[derive(Debug, Clone, Copy, PartialEq, Eq, Structural)]
pub enum StoreError {
    /// The system clock reads outside the range of instants that jiff represents.
    ClockOutOfRange,
}

/// The greetings store.
#[derive(Debug)]
pub struct GreetingsRepository {
    recipients: Vec<RecipientGreetings>,
    id_generator: IdGenerator,
    greeting_count: usize,
}

impl View for GreetingsRepository {
    type V = Seq<(Seq<char>, Seq<GreetingView>)>;

    closed spec fn view(&self) -> Seq<(Seq<char>, Seq<GreetingView>)> {
        entries_view(self.recipients@)
    }
}

impl GreetingsRepository {
    /// The identifier that the next stored greeting receives.
    pub closed spec fn next_greeting_id(&self) -> u32 {
        self.id_generator.upcoming()
    }

    /// The store's invariant: names are distinct, groups are non-empty, timestamps
    /// are valid, identifiers count up from 0 and, until they wrap around, are unique.
    pub closed spec fn wf(&self) -> bool {
        &&& names_distinct(self@)
        &&& groups_well_formed(self@)
        &&& self.greeting_count == total_count(self@)
        &&& self.next_greeting_id() == (total_count(self@) as int) % id_space()
        &&& total_count(self@) <= id_space() ==> ids_unique_below(self@, total_count(self@) as int)
    }

    /// An empty store whose first greeting receives identifier 0.
    pub fn new() -> (repo: Self)
        ensures
            repo.wf(),
            repo@ == Seq::<(Seq<char>, Seq<GreetingView>)>::empty(),
            repo.next_greeting_id() == 0,
    {
        let repo = GreetingsRepository {
            recipients: Vec::new(),
            id_generator: IdGenerator::default(),
            greeting_count: 0,
        };
        assert(repo@ =~= Seq::<(Seq<char>, Seq<GreetingView>)>::empty());
        repo
    }

    /// The number of greetings stored, as the count that the store keeps.
    pub fn greeting_count(&self) -> (count: usize)
        requires
            self.wf(),
        ensures
            count == total_count(self@),
    {
        self.greeting_count
    }

    /// The position of the group filed under `key`, if there is one.
    fn find_recipient(&self, key: &String) -> (found: Option<usize>)
        ensures
            match found {
                Some(i) => i < self@.len() && self@[i as int].0 == key@,
                None => !has_recipient(self@, key@),
            },
    {
        let mut i: usize = 0;
        while i < self.recipients.len()
            invariant
                i <= self.recipients@.len(),
                forall|k: int| 0 <= k < i ==> #[trigger] self@[k].0 != key@,
            decreases self.recipients@.len() - i,
        {
            if self.recipients[i].recipient_name == *key {
                return Some(i);
            }
            i = i + 1;
        }
        None
    }
}


impl GreetingsRepository {
    /// Files `greeting` under `name` with the next identifier and the given
    /// `timestamp`: it is appended to the group of `name`, or starts a new group
    /// at the end when `name` has none.
    pub fn add_new_greeting_at(&mut self, name: &str, greeting: NewGreeting, timestamp: Timestamp)
        requires
            old(self).wf(),
            total_count(old(self)@) < usize::MAX,
            timestamp.wf(),
        ensures
            final(self).wf(),
            final(self)@ == with_greeting(
                old(self)@,
                name@,
                stored_greeting(old(self).next_greeting_id(), greeting, timestamp),
            ),
            final(self).next_greeting_id() == nth_id(old(self).next_greeting_id(), 1),
            lookup(final(self)@, name@) == Some(
                appended(
                    lookup(old(self)@, name@),
                    stored_greeting(old(self).next_greeting_id(), greeting, timestamp),
                ),
            ),
            forall|other: Seq<char>|
                other != name@ ==> #[trigger] lookup(final(self)@, other) == lookup(old(self)@, other),
    {
        let ghost old_entries = self@;
        let ghost old_groups = self.recipients@;
        let ghost old_total = total_count(self@);
        let key = String::from_str(name);
        let id = self.id_generator.next_id();
        let ghost g = stored_greeting(id, greeting, timestamp);
        let stored = Greeting {
            id,
            recipient_name: greeting.recipient_name,
            sender_name: greeting.sender_name,
            message: greeting.message,
            timestamp,
        };
        assert(stored@ == g);
        match self.find_recipient(&key) {
            Some(i) => {
                self.recipients[i].greetings.push(stored);
                proof {
                    let group = self.recipients@[i as int];
                    assert(group.greetings@ == old_groups[i as int].greetings@.push(stored));
                    assert(greetings_view(group.greetings@) =~= greetings_view(
                        old_groups[i as int].greetings@,
                    ).push(g));
                    assert(self.recipients@ =~= old_groups.update(i as int, group));
                    assert(self@ =~= old_entries.update(i as int, (name@, old_entries[i as int].1.push(g))));
                    lemma_index_unique(old_entries, name@, i as int);
                    lemma_total_update(old_entries, i as int, (name@, old_entries[i as int].1.push(g)));
                }
            },
            None => {
                let mut greetings = Vec::new();
                greetings.push(stored);
                self.recipients.push(RecipientGreetings { recipient_name: key, greetings });
                proof {
                    assert(greetings_view(self.recipients@.last().greetings@) =~= seq![g]);
                    assert(self@ =~= old_entries.push((name@, seq![g])));
                    assert(self@.drop_last() =~= old_entries);
                }
            },
        }
        self.greeting_count = self.greeting_count + 1;
        proof {
            assert(self@ == with_greeting(old_entries, name@, g));
            lemma_with_greeting_keeps_invariant(old_entries, name@, g);
            lemma_read_after_write(old_entries, name@, g);
            crate::db::id::lemma_nth_id_step(0, old_total);
        }
    }
}

impl GreetingsRepository {
    /// Files `greeting` under `name`, stamped with the current time from the
    /// system clock (see [`add_new_greeting_at`](Self::add_new_greeting_at)).
    /// When the clock reads outside the range that jiff represents, nothing is
    /// filed and `ClockOutOfRange` is returned.
    pub fn add_new_greeting(&mut self, name: &str, greeting: NewGreeting) -> (result: Result<
        (),
        StoreError,
    >)
        requires
            old(self).wf(),
            total_count(old(self)@) < usize::MAX,
        ensures
            final(self).wf(),
            match result {
                Ok(()) => {
                    &&& exists|timestamp: Timestamp|
                        timestamp.wf() && final(self)@ == with_greeting(
                            old(self)@,
                            name@,
                            #[trigger] stored_greeting(old(self).next_greeting_id(), greeting, timestamp),
                        ) && lookup(final(self)@, name@) == Some(
                            appended(
                                lookup(old(self)@, name@),
                                stored_greeting(old(self).next_greeting_id(), greeting, timestamp),
                            ),
                        )
                    &&& final(self).next_greeting_id() == nth_id(old(self).next_greeting_id(), 1)
                },
                Err(e) => {
                    &&& e == StoreError::ClockOutOfRange
                    &&& final(self)@ == old(self)@
                    &&& final(self).next_greeting_id() == old(self).next_greeting_id()
                },
            },
            forall|other: Seq<char>|
                other != name@ ==> #[trigger] lookup(final(self)@, other) == lookup(old(self)@, other),
    {
        match timestamp_now() {
            Some(timestamp) => {
                let ghost first_id = self.next_greeting_id();
                let ghost filed = stored_greeting(first_id, greeting, timestamp);
                self.add_new_greeting_at(name, greeting, timestamp);
                assert(timestamp.wf() && self@ == with_greeting(old(self)@, name@, filed) && lookup(
                    self@,
                    name@,
                ) == Some(appended(lookup(old(self)@, name@), filed)));
                Ok(())
            },
            None => Err(StoreError::ClockOutOfRange),
        }
    }

    /// The greetings filed under `name`, oldest first, or `None` when `name` has none.
    pub fn get_greetings_by_name(&self, name: &str) -> (found: Option<&Vec<Greeting>>)
        requires
            self.wf(),
        ensures
            match found {
                Some(greetings) => lookup(self@, name@) == Some(greetings_view(greetings@)),
                None => lookup(self@, name@) is None,
            },
    {
        let key = String::from_str(name);
        match self.find_recipient(&key) {
            Some(i) => {
                proof {
                    lemma_index_unique(self@, name@, i as int);
                }
                Some(&self.recipients[i].greetings)
            },
            None => None,
        }
    }

    /// Every stored greeting, group after group, each group oldest first.
    pub fn get_all_greetings(&self) -> (all: Vec<Greeting>)
        ensures
            greetings_view(all@) == flatten(self@),
    {
        let mut all: Vec<Greeting> = Vec::new();
        let mut i: usize = 0;
        while i < self.recipients.len()
            invariant
                i <= self.recipients@.len(),
                greetings_view(all@) =~= flatten(self@.take(i as int)),
            decreases self.recipients@.len() - i,
        {
            let group = &self.recipients[i];
            let ghost before = greetings_view(all@);
            let mut j: usize = 0;
            while j < group.greetings.len()
                invariant
                    j <= group.greetings@.len(),
                    greetings_view(all@) =~= before + greetings_view(group.greetings@).take(j as int),
                decreases group.greetings@.len() - j,
            {
                let copy = group.greetings[j].clone();
                let ghost prev = all@;
                all.push(copy);
                proof {
                    assert(greetings_view(all@) =~= greetings_view(prev).push(copy@));
                    assert(greetings_view(group.greetings@).take(j + 1) =~= greetings_view(
                        group.greetings@,
                    ).take(j as int).push(group.greetings@[j as int]@));
                }
                j = j + 1;
            }
            proof {
                assert(greetings_view(group.greetings@).take(j as int) =~= greetings_view(group.greetings@));
                assert(self@.take(i + 1).drop_last() =~= self@.take(i as int));
            }
            i = i + 1;
        }
        assert(self@.take(i as int) =~= self@);
        all
    }

    /// The groups, in the order in which their names first appeared.
    pub fn recipients(&self) -> (groups: &Vec<RecipientGreetings>)
        ensures
            entries_view(groups@) == self@,
    {
        &self.recipients
    }

    /// The number of stored greetings and the number of names they are filed under.
    pub fn stored_counts(&self) -> (counts: (usize, usize))
        requires
            self.wf(),
        ensures
            counts.0 == total_count(self@),
            counts.1 == self@.len(),
    {
        (self.greeting_count, self.recipients.len())
    }
}

/// Reading back after a write: once a greeting is filed under `name`, the
/// greetings of `name` are the earlier ones followed by it, and the greetings of
/// every other name are unchanged.
pub proof fn lemma_read_after_write(
    entries: Seq<(Seq<char>, Seq<GreetingView>)>,
    name: Seq<char>,
    greeting: GreetingView,
)
    requires
        names_distinct(entries),
    ensures
        lookup(with_greeting(entries, name, greeting), name) == Some(
            appended(lookup(entries, name), greeting),
        ),
        forall|other: Seq<char>|
            other != name ==> #[trigger] lookup(with_greeting(entries, name, greeting), other)
                == lookup(entries, other),
        names_distinct(with_greeting(entries, name, greeting)),
{
    let after = with_greeting(entries, name, greeting);
    if has_recipient(entries, name) {
        let k = recipient_index(entries, name);
        assert(after[k].0 == name);
        assert forall|i: int, j: int| 0 <= i < j < after.len() implies after[i].0 != after[j].0 by {
            assert(entries[i].0 != entries[j].0);
        }
        lemma_index_unique(after, name, k);
        assert forall|other: Seq<char>| other != name implies #[trigger] lookup(after, other)
            == lookup(entries, other) by {
            if has_recipient(entries, other) {
                let m = recipient_index(entries, other);
                assert(m != k);
                assert(after[m] == entries[m]);
                lemma_index_unique(after, other, m);
            } else {
                if has_recipient(after, other) {
                    let m = recipient_index(after, other);
                    assert(entries[m].0 == other);
                }
            }
        }
    } else {
        let k = entries.len() as int;
        assert forall|i: int, j: int| 0 <= i < j < after.len() implies after[i].0 != after[j].0 by {
            if j == k {
                assert(after[i] == entries[i]);
            } else {
                assert(entries[i].0 != entries[j].0);
            }
        }
        lemma_index_unique(after, name, k);
        assert forall|other: Seq<char>| other != name implies #[trigger] lookup(after, other)
            == lookup(entries, other) by {
            if has_recipient(entries, other) {
                let m = recipient_index(entries, other);
                assert(after[m] == entries[m]);
                lemma_index_unique(after, other, m);
            } else {
                if has_recipient(after, other) {
                    let m = recipient_index(after, other);
                    if m < k {
                        assert(after[m] == entries[m]);
                    }
                }
            }
        }
    }
}

/// Identifiers are unique: as long as no more than `2^32` greetings were stored,
/// no two stored greetings share an identifier, and each is below the count.
pub proof fn lemma_greeting_ids_unique(repo: GreetingsRepository)
    requires
        repo.wf(),
        total_count(repo@) <= id_space(),
    ensures
        ids_unique_below(repo@, total_count(repo@) as int),
{
}

/// The greetings listed one after another are as many as the count says.
pub proof fn lemma_flatten_len(entries: Seq<(Seq<char>, Seq<GreetingView>)>)
    ensures
        flatten(entries).len() == total_count(entries),
    decreases entries.len(),
{
    if entries.len() > 0 {
        lemma_flatten_len(entries.drop_last());
    }
}

impl GreetingsRepository {
    /// The shape that the store's invariant guarantees: no two groups share a
    /// name, every group holds a greeting, and every timestamp is valid.
    pub proof fn lemma_wf_shape(&self)
        requires
            self.wf(),
        ensures
            names_distinct(self@),
            groups_well_formed(self@),
    {
    }

    /// Every stored timestamp is one that jiff can hold.
    pub proof fn lemma_timestamps_valid(&self)
        requires
            self.wf(),
        ensures
            forall|a: int, b: int|
                0 <= a < self@.len() && 0 <= b < self@[a].1.len() ==> (
                #[trigger] self@[a].1[b]).timestamp.wf(),
    {
    }
}

impl Default for GreetingsRepository {
    /// An empty store, as [`new`](GreetingsRepository::new) makes it.
    fn default() -> (repo: Self)
        ensures
            repo.wf(),
            repo@ == Seq::<(Seq<char>, Seq<GreetingView>)>::empty(),
            repo.next_greeting_id() == 0,
    {
        GreetingsRepository::new()
    }
}

impl Default for Greeting {
    /// A greeting with identifier 0, empty texts and the Unix epoch as timestamp.
    fn default() -> (greeting: Self)
        ensures
            greeting@ == (GreetingView {
                id: 0,
                recipient_name: Seq::empty(),
                sender_name: Seq::empty(),
                message: Seq::empty(),
                timestamp: Timestamp { second: 0, nanosecond: 0 },
            }),
    {
        Greeting {
            id: 0,
            recipient_name: String::new(),
            sender_name: String::new(),
            message: String::new(),
            timestamp: Timestamp { second: 0, nanosecond: 0 },
        }
    }
}

impl Default for NewGreeting {
    /// A greeting request with empty texts.
    fn default() -> (greeting: Self)
        ensures
            greeting.recipient_name@ == Seq::<char>::empty(),
            greeting.sender_name@ == Seq::<char>::empty(),
            greeting.message@ == Seq::<char>::empty(),
    {
        NewGreeting { recipient_name: String::new(), sender_name: String::new(), message: String::new() }
    }
}

impl Clone for NewGreeting {
    fn clone(&self) -> (copy: Self)
        ensures
            copy.recipient_name@ == self.recipient_name@,
            copy.sender_name@ == self.sender_name@,
            copy.message@ == self.message@,
    {
        NewGreeting {
            recipient_name: self.recipient_name.clone(),
            sender_name: self.sender_name.clone(),
            message: self.message.clone(),
        }
    }
}

/// The groups after filing each `(name, greeting)` of `filings`, in order, into
/// an empty store: what [`GreetingsRepository::new`] followed by one add per
/// filing leaves, by the `ensures` of those functions.
pub open spec fn replay(filings: Seq<(Seq<char>, GreetingView)>) -> Seq<(Seq<char>, Seq<GreetingView>)>
    decreases filings.len(),
{
    if filings.len() == 0 {
        seq![]
    } else {
        with_greeting(replay(filings.drop_last()), filings.last().0, filings.last().1)
    }
}

/// The greetings of `filings` filed under `name`, in filing order.
pub open spec fn filed_under(filings: Seq<(Seq<char>, GreetingView)>, name: Seq<char>) -> Seq<GreetingView>
    decreases filings.len(),
{
    if filings.len() == 0 {
        seq![]
    } else if filings.last().0 == name {
        filed_under(filings.drop_last(), name).push(filings.last().1)
    } else {
        filed_under(filings.drop_last(), name)
    }
}

/// The store after any sequence of filings: no name has two groups, no group is
/// empty, no filing is lost or counted twice, and each name holds exactly the
/// greetings filed under it, in filing order (none, and no group, when nothing
/// was filed under it).
pub proof fn lemma_replay(filings: Seq<(Seq<char>, GreetingView)>)
    ensures
        names_distinct(replay(filings)),
        forall|i: int| 0 <= i < replay(filings).len() ==> #[trigger] replay(filings)[i].1.len() > 0,
        total_count(replay(filings)) == filings.len(),
        forall|name: Seq<char>|
            #[trigger] lookup(replay(filings), name) == if filed_under(filings, name).len() == 0 {
                None
            } else {
                Some(filed_under(filings, name))
            },
    decreases filings.len(),
{
    if filings.len() == 0 {
        let e = replay(filings);
        assert forall|name: Seq<char>| #[trigger] lookup(e, name) == if filed_under(filings, name).len()
            == 0 {
            None
        } else {
            Some(filed_under(filings, name))
        } by {
            assert(!has_recipient(e, name));
        }
    } else {
        let prev = filings.drop_last();
        let (n, g) = filings.last();
        lemma_replay(prev);
        let before = replay(prev);
        let after = replay(filings);
        lemma_read_after_write(before, n, g);
        if has_recipient(before, n) {
            let k = recipient_index(before, n);
            lemma_total_update(before, k, (n, before[k].1.push(g)));
            assert forall|i: int| 0 <= i < after.len() implies #[trigger] after[i].1.len() > 0 by {
                if i != k {
                    assert(after[i] == before[i]);
                }
            }
        } else {
            assert(after.drop_last() =~= before);
            assert forall|i: int| 0 <= i < after.len() implies #[trigger] after[i].1.len() > 0 by {
                if i < before.len() {
                    assert(after[i] == before[i]);
                }
            }
        }
        assert forall|name: Seq<char>| #[trigger] lookup(after, name) == if filed_under(filings, name).len()
            == 0 {
            None
        } else {
            Some(filed_under(filings, name))
        } by {
            if name == n {
                assert(lookup(before, n) == if filed_under(prev, n).len() == 0 {
                    None
                } else {
                    Some(filed_under(prev, n))
                });
                if filed_under(prev, n).len() == 0 {
                    assert(filed_under(prev, n).push(g) =~= seq![g]);
                }
            } else {
                assert(lookup(before, name) == if filed_under(prev, name).len() == 0 {
                    None
                } else {
                    Some(filed_under(prev, name))
                });
            }
        }
    }
}

/// Identifiers after any sequence of filings: when the `k`-th filing carries
/// the `k`-th identifier of a generator started at 0 (as the store hands them
/// out) and a valid timestamp, then as long as at most `2^32` greetings were
/// filed, no two stored greetings share an identifier.
pub proof fn lemma_replay_ids(filings: Seq<(Seq<char>, GreetingView)>)
    requires
        forall|k: int| 0 <= k < filings.len() ==> (#[trigger] filings[k]).1.id == nth_id(0, k as nat),
        forall|k: int| 0 <= k < filings.len() ==> (#[trigger] filings[k]).1.timestamp.wf(),
    ensures
        groups_well_formed(replay(filings)),
        filings.len() <= id_space() ==> ids_unique_below(replay(filings), filings.len() as int),
    decreases filings.len(),
{
    lemma_replay(filings);
    if filings.len() > 0 {
        let prev = filings.drop_last();
        let k = prev.len();
        assert forall|j: int| 0 <= j < prev.len() implies (#[trigger] prev[j]).1.id == nth_id(0, j as nat)
            && prev[j].1.timestamp.wf() by {
            assert(prev[j] == filings[j]);
        }
        lemma_replay_ids(prev);
        lemma_replay(prev);
        let (n, g) = filings.last();
        assert(g == filings[k as int].1);
        lemma_with_greeting_keeps_invariant(replay(prev), n, g);
    }
}

/// When names are distinct, the group found at `i` is the one `lookup` picks.
proof fn lemma_index_unique(entries: Seq<(Seq<char>, Seq<GreetingView>)>, name: Seq<char>, i: int)
    requires
        names_distinct(entries),
        0 <= i < entries.len(),
        entries[i].0 == name,
    ensures
        has_recipient(entries, name),
        recipient_index(entries, name) == i,
{
    assert(has_recipient(entries, name));
    let j = recipient_index(entries, name);
    if j != i {
        if j < i {
            assert(entries[j].0 != entries[i].0);
        } else {
            assert(entries[i].0 != entries[j].0);
        }
    }
}

/// Replacing one group changes the total by the difference of the group sizes.
proof fn lemma_total_update(
    entries: Seq<(Seq<char>, Seq<GreetingView>)>,
    i: int,
    group: (Seq<char>, Seq<GreetingView>),
)
    requires
        0 <= i < entries.len(),
    ensures
        total_count(entries.update(i, group)) == total_count(entries) - entries[i].1.len() + group.1.len(),
    decreases entries.len(),
{
    let updated = entries.update(i, group);
    if i == entries.len() - 1 {
        assert(updated.drop_last() =~= entries.drop_last());
    } else {
        assert(updated.drop_last() =~= entries.drop_last().update(i, group));
        lemma_total_update(entries.drop_last(), i, group);
    }
}

/// Filing a greeting whose identifier is the current count keeps the store's
/// invariant on the groups, adds one to the count, and keeps identifiers unique.
proof fn lemma_with_greeting_keeps_invariant(
    entries: Seq<(Seq<char>, Seq<GreetingView>)>,
    name: Seq<char>,
    g: GreetingView,
)
    requires
        names_distinct(entries),
        groups_well_formed(entries),
        g.timestamp.wf(),
        g.id as int == (total_count(entries) as int) % id_space(),
        total_count(entries) <= id_space() ==> ids_unique_below(entries, total_count(entries) as int),
    ensures
        names_distinct(with_greeting(entries, name, g)),
        groups_well_formed(with_greeting(entries, name, g)),
        total_count(with_greeting(entries, name, g)) == total_count(entries) + 1,
        total_count(entries) + 1 <= id_space() ==> ids_unique_below(
            with_greeting(entries, name, g),
            total_count(entries) + 1int,
        ),
{
    let after = with_greeting(entries, name, g);
    let n = total_count(entries);
    if has_recipient(entries, name) {
        let k = recipient_index(entries, name);
        lemma_total_update(entries, k, (name, entries[k].1.push(g)));
        assert forall|i: int, j: int| 0 <= i < j < after.len() implies after[i].0 != after[j].0 by {
            assert(entries[i].0 != entries[j].0);
        }
        assert forall|i: int, j: int|
            0 <= i < after.len() && 0 <= j < after[i].1.len() implies #[trigger] after[i].1[j].timestamp.wf() by {
            if i == k && j == entries[k].1.len() {
            } else {
                assert(after[i].1[j] == entries[i].1[j]);
            }
        }
        assert forall|i: int| 0 <= i < after.len() implies #[trigger] after[i].1.len() > 0 by {
            if i != k {
                assert(after[i] == entries[i]);
            }
        }
        if n + 1 <= id_space() {
            assert(g.id == n);
            assert forall|i: int, j: int|
                0 <= i < after.len() && 0 <= j < after[i].1.len() implies #[trigger] after[i].1[j].id < n
                + 1 by {
                if !(i == k && j == entries[k].1.len()) {
                    assert(after[i].1[j] == entries[i].1[j]);
                }
            }
            assert forall|i1: int, j1: int, i2: int, j2: int|
                0 <= i1 < after.len() && 0 <= j1 < after[i1].1.len() && 0 <= i2 < after.len() && 0
                    <= j2 < after[i2].1.len() && (i1 != i2 || j1 != j2) implies #[trigger] after[i1].1[j1].id
                != #[trigger] after[i2].1[j2].id by {
                let new1 = i1 == k && j1 == entries[k].1.len();
                let new2 = i2 == k && j2 == entries[k].1.len();
                if !new1 {
                    assert(after[i1].1[j1] == entries[i1].1[j1]);
                }
                if !new2 {
                    assert(after[i2].1[j2] == entries[i2].1[j2]);
                }
                if !new1 && !new2 {
                    assert(entries[i1].1[j1].id != entries[i2].1[j2].id);
                } else if new1 && !new2 {
                    assert(entries[i2].1[j2].id < n);
                } else if !new1 && new2 {
                    assert(entries[i1].1[j1].id < n);
                }
            }
        }
    } else {
        assert(after.drop_last() =~= entries);
        assert forall|i: int, j: int| 0 <= i < j < after.len() implies after[i].0 != after[j].0 by {
            if j == entries.len() {
                assert(entries[i].0 == after[i].0);
            } else {
                assert(entries[i].0 != entries[j].0);
            }
        }
        assert forall|i: int, j: int|
            0 <= i < after.len() && 0 <= j < after[i].1.len() implies #[trigger] after[i].1[j].timestamp.wf() by {
            if i < entries.len() {
                assert(after[i] == entries[i]);
            }
        }
        assert forall|i: int| 0 <= i < after.len() implies #[trigger] after[i].1.len() > 0 by {
            if i < entries.len() {
                assert(after[i] == entries[i]);
            }
        }
        if n + 1 <= id_space() {
            assert(g.id == n);
            assert forall|i: int, j: int|
                0 <= i < after.len() && 0 <= j < after[i].1.len() implies #[trigger] after[i].1[j].id < n
                + 1 by {
                if i < entries.len() {
                    assert(after[i] == entries[i]);
                }
            }
            assert forall|i1: int, j1: int, i2: int, j2: int|
                0 <= i1 < after.len() && 0 <= j1 < after[i1].1.len() && 0 <= i2 < after.len() && 0
                    <= j2 < after[i2].1.len() && (i1 != i2 || j1 != j2) implies #[trigger] after[i1].1[j1].id
                != #[trigger] after[i2].1[j2].id by {
                if i1 < entries.len() {
                    assert(after[i1] == entries[i1]);
                    assert(entries[i1].1[j1].id < n);
                }
                if i2 < entries.len() {
                    assert(after[i2] == entries[i2]);
                    assert(entries[i2].1[j2].id < n);
                }
                if i1 < entries.len() && i2 < entries.len() {
                    assert(entries[i1].1[j1].id != entries[i2].1[j2].id);
                }
            }
        }
    }
}

} // verus!
