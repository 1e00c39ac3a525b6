//! Traffic that was seen of each process.
use vstd::prelude::*;
use vstd::string::*;

verus! {

/// The traffic of one process.
#[derive(Debug, PartialEq, Eq)]
pub struct ProcessTrafficEntry {
    pub process_name: String,
    pub bytes_sent: u64,
    pub bytes_received: u64,
    /// Milliseconds since the Unix epoch.
    pub last_activity: u64,
}

/// Bytes sent, bytes received, and the time of the last activity.
pub type Totals = (u64, u64, u64);

/// The totals of one process.
pub open spec fn totals(e: ProcessTrafficEntry) -> Totals {
    (e.bytes_sent, e.bytes_received, e.last_activity)
}

/// No two entries are of the same process.
pub open spec fn distinct_processes(s: Seq<ProcessTrafficEntry>) -> bool {
    forall|i: int, j: int|
        0 <= i < s.len() && 0 <= j < s.len() && (#[trigger] s[i]).process_name@ == (
        #[trigger] s[j]).process_name@ ==> i == j
}

/// The entries are those of the table: one for each process of it.
pub open spec fn lists(s: Seq<ProcessTrafficEntry>, table: Map<Seq<char>, Totals>) -> bool {
    &&& distinct_processes(s)
    &&& forall|i: int|
        0 <= i < s.len() ==> table.contains_key((#[trigger] s[i]).process_name@)
            && table[s[i].process_name@] == totals(s[i])
    &&& forall|name: Seq<char>| #[trigger]
        table.contains_key(name) ==> exists|i: int|
            0 <= i < s.len() && (#[trigger] s[i]).process_name@ == name
}

/// The traffic of every process that was seen.
pub struct TrafficStats {
    entries: Vec<ProcessTrafficEntry>,
    table: Ghost<Map<Seq<char>, Totals>>,
}

/// The model of the statistics: the totals by process name.
impl View for TrafficStats {
    type V = Map<Seq<char>, Totals>;

    closed spec fn view(&self) -> Map<Seq<char>, Totals> {
        self.table@
    }
}

/// What was counted for a process so far, or nothing, with activity at `now`.
pub open spec fn totals_or(table: Map<Seq<char>, Totals>, name: Seq<char>, now: u64) -> Totals {
    if table.contains_key(name) {
        table[name]
    } else {
        (0, 0, now)
    }
}

/// There is room to count so many bytes more for a process.
pub open spec fn has_room(
    table: Map<Seq<char>, Totals>,
    name: Seq<char>,
    sent: u64,
    received: u64,
) -> bool {
    let t = totals_or(table, name, 0);
    t.0 + sent <= u64::MAX && t.1 + received <= u64::MAX
}

/// The table after so many bytes more were counted for a process, at the time `now`.
pub open spec fn recorded(
    table: Map<Seq<char>, Totals>,
    name: Seq<char>,
    sent: u64,
    received: u64,
    now: u64,
) -> Map<Seq<char>, Totals> {
    let t = totals_or(table, name, now);
    table.insert(name, ((t.0 + sent) as u64, (t.1 + received) as u64, now))
}

impl TrafficStats {
    /// The entries and the table agree.
    pub closed spec fn wf(&self) -> bool {
        lists(self.entries@, self.table@)
    }

    /// Statistics of no process.
    pub fn new() -> (r: Self)
        ensures
            r.wf(),
            r@ == Map::<Seq<char>, Totals>::empty(),
    {
        TrafficStats { entries: Vec::new(), table: Ghost(Map::empty()) }
    }

    /// The position of the entry of a process.
    fn position(&self, name: &str) -> (r: Option<usize>)
        requires
            self.wf(),
        ensures
            match r {
                Some(i) => i < self.entries@.len() && self.entries@[i as int].process_name@ == name@
                    && self@.contains_key(name@),
                None => !self@.contains_key(name@),
            },
    {
        let key = name.to_string();
        let n: usize = self.entries.len();
        let mut i: usize = 0;
        while i < n
            invariant
                i <= n == self.entries@.len(),
                key@ == name@,
                self.wf(),
                forall|j: int| 0 <= j < i ==> (#[trigger] self.entries@[j]).process_name@ != name@,
            decreases n - i,
        {
            if self.entries[i].process_name == key {
                return Some(i);
            }
            i += 1;
        }
        None
    }

    /// The totals of a process.
    pub fn get(&self, name: &str) -> (r: Option<Totals>)
        requires
            self.wf(),
        ensures
            r == (if self@.contains_key(name@) {
                Some(self@[name@])
            } else {
                None
            }),
    {
        match self.position(name) {
            Some(i) => {
                let e = &self.entries[i];
                Some((e.bytes_sent, e.bytes_received, e.last_activity))
            },
            None => None,
        }
    }

    /// Whether there is room to count so many bytes more for a process.
    pub fn fits(&self, name: &str, sent: u64, received: u64) -> (r: bool)
        requires
            self.wf(),
        ensures
            r == has_room(self@, name@, sent, received),
    {
        match self.get(name) {
            Some(t) => t.0 <= u64::MAX - sent && t.1 <= u64::MAX - received,
            None => true,
        }
    }

    /// Counts so many bytes more for a process, which was active at `now`.
    pub fn record(&mut self, name: &str, sent: u64, received: u64, now: u64)
        requires
            old(self).wf(),
            has_room(old(self)@, name@, sent, received),
        ensures
            final(self).wf(),
            final(self)@ == recorded(old(self)@, name@, sent, received, now),
    {
        let ghost before = self.entries@;
        let ghost table = self.table@;
        match self.position(name) {
            Some(i) => {
                let e = &self.entries[i];
                let updated = ProcessTrafficEntry {
                    process_name: e.process_name.clone(),
                    bytes_sent: e.bytes_sent + sent,
                    bytes_received: e.bytes_received + received,
                    last_activity: now,
                };
                self.entries.set(i, updated);
                self.table = Ghost(recorded(table, name@, sent, received, now));
                proof {
                    let after = self.entries@;
                    assert forall|n: Seq<char>| #[trigger]
                        self.table@.contains_key(n) implies exists|j: int|
                        0 <= j < after.len() && (#[trigger] after[j]).process_name@ == n by {
                        assert(table.contains_key(n));
                        let j = choose|j: int|
                            0 <= j < before.len() && (#[trigger] before[j]).process_name@ == n;
                        assert(after[j].process_name@ == n);
                    }
                    assert(forall|j: int|
                        0 <= j < after.len() ==> (#[trigger] after[j]).process_name@
                            == before[j].process_name@);
                }
            },
            None => {
                self.entries.push(
                    ProcessTrafficEntry {
                        process_name: name.to_string(),
                        bytes_sent: sent,
                        bytes_received: received,
                        last_activity: now,
                    },
                );
                self.table = Ghost(recorded(table, name@, sent, received, now));
                proof {
                    let after = self.entries@;
                    assert forall|n: Seq<char>| #[trigger]
                        self.table@.contains_key(n) implies exists|j: int|
                        0 <= j < after.len() && (#[trigger] after[j]).process_name@ == n by {
                        if n == name@ {
                            assert(after[after.len() - 1].process_name@ == n);
                        } else {
                            assert(table.contains_key(n));
                            let j = choose|j: int|
                                0 <= j < before.len() && (#[trigger] before[j]).process_name@ == n;
                            assert(after[j].process_name@ == n);
                        }
                    }
                    assert(forall|j: int|
                        0 <= j < before.len() ==> #[trigger] after[j] == before[j]);
                }
            },
        }
    }

    /// Notes that a process was active at `now`.
    pub fn touch(&mut self, name: &str, now: u64)
        requires
            old(self).wf(),
        ensures
            final(self).wf(),
            final(self)@ == recorded(old(self)@, name@, 0, 0, now),
    {
        self.record(name, 0, 0, now);
    }

    /// Forgets every process.
    pub fn clear(&mut self)
        ensures
            final(self).wf(),
            final(self)@ == Map::<Seq<char>, Totals>::empty(),
    {
        self.entries = Vec::new();
        self.table = Ghost(Map::empty());
    }

    /// A copy of the entries.
    fn copied_entries(&self) -> (r: Vec<ProcessTrafficEntry>)
        ensures
            r@.len() == self.entries@.len(),
            forall|j: int|
                0 <= j < r@.len() ==> (#[trigger] r@[j]).process_name@
                    == self.entries@[j].process_name@ && totals(r@[j]) == totals(self.entries@[j]),
    {
        let n: usize = self.entries.len();
        let mut r: Vec<ProcessTrafficEntry> = Vec::new();
        let mut i: usize = 0;
        while i < n
            invariant
                i <= n == self.entries@.len(),
                r@.len() == i,
                forall|j: int|
                    0 <= j < i ==> (#[trigger] r@[j]).process_name@ == self.entries@[j].process_name@
                        && totals(r@[j]) == totals(self.entries@[j]),
            decreases n - i,
        {
            let e = &self.entries[i];
            r.push(
                ProcessTrafficEntry {
                    process_name: e.process_name.clone(),
                    bytes_sent: e.bytes_sent,
                    bytes_received: e.bytes_received,
                    last_activity: e.last_activity,
                },
            );
            i += 1;
        }
        r
    }

    /// The entries, one for each process.
    pub fn to_entries(&self) -> (r: Vec<ProcessTrafficEntry>)
        requires
            self.wf(),
        ensures
            lists(r@, self@),
    {
        let r = self.copied_entries();
        proof {
            copy_lists(self.entries@, r@, self@);
        }
        r
    }
}

/// A copy of the entries of a table lists the table.
proof fn copy_lists(
    s: Seq<ProcessTrafficEntry>,
    r: Seq<ProcessTrafficEntry>,
    table: Map<Seq<char>, Totals>,
)
    requires
        lists(s, table),
        r.len() == s.len(),
        forall|j: int|
            0 <= j < r.len() ==> (#[trigger] r[j]).process_name@ == s[j].process_name@ && totals(
                r[j],
            ) == totals(s[j]),
    ensures
        lists(r, table),
{
    assert forall|name: Seq<char>| #[trigger] table.contains_key(name) implies exists|i: int|
        0 <= i < r.len() && (#[trigger] r[i]).process_name@ == name by {
        let j = choose|j: int| 0 <= j < s.len() && (#[trigger] s[j]).process_name@ == name;
        assert(r[j].process_name@ == name);
    }
}

impl Clone for TrafficStats {
    fn clone(&self) -> (r: Self)
        ensures
            r@ == self@,
            self.wf() ==> r.wf(),
    {
        let r = TrafficStats { entries: self.copied_entries(), table: Ghost(self.table@) };
        proof {
            if self.wf() {
                copy_lists(self.entries@, r.entries@, self@);
            }
        }
        r
    }
}

/// What is counted for one process leaves the totals of the others as they are.
pub proof fn others_keep_their_totals(
    table: Map<Seq<char>, Totals>,
    name: Seq<char>,
    other: Seq<char>,
    sent: u64,
    received: u64,
    now: u64,
)
    requires
        name != other,
    ensures
        recorded(table, name, sent, received, now).contains_key(other) == table.contains_key(other),
        table.contains_key(other) ==> recorded(table, name, sent, received, now)[other]
            == table[other],
{
}

/// Two counts for one process add up, and the later one gives the time.
pub proof fn counts_add_up(
    table: Map<Seq<char>, Totals>,
    name: Seq<char>,
    a: (u64, u64, u64),
    b: (u64, u64, u64),
)
    requires
        has_room(table, name, a.0, a.1),
        has_room(recorded(table, name, a.0, a.1, a.2), name, b.0, b.1),
    ensures
        recorded(recorded(table, name, a.0, a.1, a.2), name, b.0, b.1, b.2) == recorded(
            table,
            name,
            (a.0 + b.0) as u64,
            (a.1 + b.1) as u64,
            b.2,
        ),
{
    assert(recorded(recorded(table, name, a.0, a.1, a.2), name, b.0, b.1, b.2) =~= recorded(
        table,
        name,
        (a.0 + b.0) as u64,
        (a.1 + b.1) as u64,
        b.2,
    ));
}

/// The bytes of several counts, sent and received.
pub open spec fn sum(counts: Seq<Totals>) -> (int, int)
    decreases counts.len(),
{
    if counts.len() == 0 {
        (0, 0)
    } else {
        let rest = sum(counts.drop_last());
        (rest.0 + counts.last().0, rest.1 + counts.last().1)
    }
}

/// The table after several counts for one process.
pub open spec fn all_recorded(
    table: Map<Seq<char>, Totals>,
    name: Seq<char>,
    counts: Seq<Totals>,
) -> Map<Seq<char>, Totals>
    decreases counts.len(),
{
    if counts.len() == 0 {
        table
    } else {
        let c = counts.last();
        recorded(all_recorded(table, name, counts.drop_last()), name, c.0, c.1, c.2)
    }
}

/// The totals of a process are what was counted for it: those it had, and the bytes of every
/// count since; and its last activity is that of the last count.
pub proof fn totals_accumulate(
    table: Map<Seq<char>, Totals>,
    name: Seq<char>,
    counts: Seq<Totals>,
)
    requires
        counts.len() > 0,
        totals_or(table, name, 0).0 + sum(counts).0 <= u64::MAX,
        totals_or(table, name, 0).1 + sum(counts).1 <= u64::MAX,
    ensures
        all_recorded(table, name, counts).contains_key(name),
        ({
            let t = all_recorded(table, name, counts)[name];
            &&& t.0 == totals_or(table, name, 0).0 + sum(counts).0
            &&& t.1 == totals_or(table, name, 0).1 + sum(counts).1
            &&& t.2 == counts.last().2
        }),
    decreases counts.len(),
{
    let front = counts.drop_last();
    if front.len() > 0 {
        totals_accumulate(table, name, front);
    } else {
        assert(sum(front) == (0int, 0int));
        assert(all_recorded(table, name, front) == table);
    }
}

/// A count is added to what was counted for the process, which is nothing where it is new, and
/// there is room for it exactly where both sums stay numbers of 64 bits.
pub proof fn counts_are_added(
    table: Map<Seq<char>, Totals>,
    name: Seq<char>,
    sent: u64,
    received: u64,
    now: u64,
)
    ensures
        ({
            let known = table.dom().contains(name);
            let s: int = if known {
                table[name].0 as int
            } else {
                0
            };
            let r: int = if known {
                table[name].1 as int
            } else {
                0
            };
            let after = recorded(table, name, sent, received, now);
            let room = s + sent <= u64::MAX && r + received <= u64::MAX;
            &&& has_room(table, name, sent, received) <==> room
            &&& after.dom() == table.dom().insert(name)
            &&& after[name].2 == now
            &&& room ==> after[name].0 == s + sent && after[name].1 == r + received
        }),
{
    assert(recorded(table, name, sent, received, now).dom() =~= table.dom().insert(name));
}

/// A list of a table has as many entries of a process as the table: one where it has the process,
/// with the totals that it has there, and else none.
pub proof fn lists_hold_the_table(
    s: Seq<ProcessTrafficEntry>,
    table: Map<Seq<char>, Totals>,
    name: Seq<char>,
)
    requires
        lists(s, table),
    ensures
        table.dom().contains(name) ==> exists|i: int|
            {
                &&& 0 <= i < s.len()
                &&& (#[trigger] s[i]).process_name@ == name
                &&& s[i].bytes_sent == table[name].0
                &&& s[i].bytes_received == table[name].1
                &&& s[i].last_activity == table[name].2
                &&& forall|j: int|
                    0 <= j < s.len() && j != i ==> (#[trigger] s[j]).process_name@ != name
            },
        !table.dom().contains(name) ==> forall|i: int|
            0 <= i < s.len() ==> (#[trigger] s[i]).process_name@ != name,
{
    if table.dom().contains(name) {
        assert(table.contains_key(name));
        let i = choose|i: int| 0 <= i < s.len() && (#[trigger] s[i]).process_name@ == name;
        assert(table[s[i].process_name@] == totals(s[i]));
    }
}

}
