//! The commands a client sends, as `mini_redis::Command::from_frame` reads
//! them from a frame, the key-value store they act on, and the response a
//! server gives to each frame it receives.
use mini_redis::Command as RespCommand;
use vstd::prelude::*;

use crate::frame::{frame_to_resp, Frame};

verus! {

/// A command read from a frame. Only `GET` and `SET` are served; any other
/// (`PUBLISH`, `SUBSCRIBE`, `UNSUBSCRIBE`, or a name `mini_redis` does not
/// know) keeps the debug text of the command `mini_redis` read, whose fields
/// it does not make public.
#[derive(Debug, PartialEq, Eq)]
pub enum Command {
    /// Read the value stored under `key`.
    Get { key: String },
    /// Store `value` under `key`; the expiry, in milliseconds, is read but
    /// not acted on.
    SetValue { key: String, value: Vec<u8>, expire_millis: Option<u128> },
    /// A command that is not served, as its debug text.
    Other(String),
}

/// What `mini_redis::Command::from_frame` reads from `frame`, or the message
/// of its error.
pub uninterp spec fn spec_command_from_frame(frame: Frame) -> Result<Command, String>;

/// Calls `mini_redis::Command::from_frame` on `frame` and converts the
/// command it gives, keeping the key, value and expiry of `GET` and `SET`
/// and the debug text of the others. Claimed: the outcome is
/// [`spec_command_from_frame`] of the frame. How a frame is read as a
/// command (an array whose first element names it) is not stated.
#[verifier::external_body]
fn command_from_frame(frame: Frame) -> (r: Result<Command, String>)
    ensures
        r == spec_command_from_frame(frame),
{
    match RespCommand::from_frame(frame_to_resp(frame)) {
        Ok(RespCommand::Get(c)) => Ok(Command::Get { key: c.key().to_string() }),
        Ok(RespCommand::Set(c)) => Ok(Command::SetValue {
            key: c.key().to_string(),
            value: c.value().to_vec(),
            expire_millis: c.expire().map(|d| d.as_millis()),
        }),
        Ok(other) => Ok(Command::Other(format!("{:?}", other))),
        Err(e) => Err(e.to_string()),
    }
}

/// Whether the store serves `command`.
pub open spec fn is_served(command: Command) -> bool {
    command is Get || command is SetValue
}

/// The store after `command`: a `SET` puts its value under its key, any
/// other command leaves the store as it was.
pub open spec fn store_after(store: Map<Seq<char>, Seq<u8>>, command: Command) -> Map<Seq<char>, Seq<u8>> {
    match command {
        Command::SetValue { key, value, .. } => store.insert(key@, value@),
        _ => store,
    }
}

/// Whether `response` is what the store answers to a served `command`: a
/// `GET` is answered with the stored value as a bulk frame, or with null
/// when nothing is stored under the key; a `SET` with the simple string
/// `OK`.
pub open spec fn is_response(store: Map<Seq<char>, Seq<u8>>, command: Command, response: Frame) -> bool {
    match command {
        Command::Get { key } => if store.contains_key(key@) {
            &&& response matches Frame::Bulk(v) && v@ == store[key@]
        } else {
            response is Null
        },
        Command::SetValue { .. } => {
            &&& response matches Frame::Simple(s) && s@ == seq!['O', 'K']
        },
        _ => false,
    }
}

/// A store of byte values under string keys.
pub struct Db {
    entries: Vec<(String, Vec<u8>)>,
}

/// Whether no key occurs twice among `entries`.
pub open spec fn keys_distinct(entries: Seq<(String, Vec<u8>)>) -> bool {
    forall|i: int, j: int|
        0 <= i < entries.len() && 0 <= j < entries.len() && i != j ==> #[trigger] entries[i].0@
            != #[trigger] entries[j].0@
}

/// Whether `key` is stored at position `i` of `entries`.
pub open spec fn stored_at(entries: Seq<(String, Vec<u8>)>, key: Seq<char>, i: int) -> bool {
    0 <= i < entries.len() && entries[i].0@ == key
}

/// The map from keys to values that `entries` hold.
pub open spec fn entries_view(entries: Seq<(String, Vec<u8>)>) -> Map<Seq<char>, Seq<u8>> {
    Map::new(
        |k: Seq<char>| exists|i: int| #[trigger] stored_at(entries, k, i),
        |k: Seq<char>| entries[choose|i: int| #[trigger] stored_at(entries, k, i)].1@,
    )
}

impl View for Db {
    type V = Map<Seq<char>, Seq<u8>>;

    closed spec fn view(&self) -> Map<Seq<char>, Seq<u8>> {
        entries_view(self.entries@)
    }
}

/// Copies `bytes` into a new vector.
fn copy_bytes(bytes: &Vec<u8>) -> (r: Vec<u8>)
    ensures
        r@ == bytes@,
{
    let mut r: Vec<u8> = Vec::new();
    let mut i: usize = 0;
    while i < bytes.len()
        invariant
            i <= bytes@.len(),
            r@ == bytes@.subrange(0, i as int),
        decreases bytes@.len() - i,
    {
        r.push(bytes[i]);
        i = i + 1;
        assert(r@ =~= bytes@.subrange(0, i as int));
    }
    assert(bytes@.subrange(0, i as int) =~= bytes@);
    r
}

impl Db {
    #[verifier::type_invariant]
    closed spec fn wf(&self) -> bool {
        keys_distinct(self.entries@)
    }

    /// An empty store.
    pub fn new() -> (db: Db)
        ensures
            db@ == Map::<Seq<char>, Seq<u8>>::empty(),
    {
        let db = Db { entries: Vec::new() };
        assert(db@ =~= Map::<Seq<char>, Seq<u8>>::empty());
        db
    }

    /// The position of `key` among the entries, if it is stored.
    fn find(&self, key: &String) -> (r: Option<usize>)
        ensures
            match r {
                Some(i) => stored_at(self.entries@, key@, i as int),
                None => !self@.contains_key(key@),
            },
    {
        let mut i: usize = 0;
        while i < self.entries.len()
            invariant
                i <= self.entries@.len(),
                forall|j: int| 0 <= j < i ==> self.entries@[j].0@ != key@,
            decreases self.entries@.len() - i,
        {
            if self.entries[i].0 == *key {
                return Some(i);
            }
            i = i + 1;
        }
        None
    }

    /// The value stored under `key`, if any.
    pub fn get(&self, key: &String) -> (r: Option<&Vec<u8>>)
        ensures
            match r {
                Some(v) => self@.contains_key(key@) && v@ == self@[key@],
                None => !self@.contains_key(key@),
            },
    {
        proof {
            use_type_invariant(self);
        }
        match self.find(key) {
            Some(i) => {
                proof {
                    let k = key@;
                    let c = choose|j: int| #[trigger] stored_at(self.entries@, k, j);
                    assert(stored_at(self.entries@, k, i as int));
                    assert(c == i);
                }
                Some(&self.entries[i].1)
            },
            None => None,
        }
    }

    /// Stores `value` under `key`, in place of what was stored there.
    pub fn set(&mut self, key: String, value: Vec<u8>)
        ensures
            final(self)@ == old(self)@.insert(key@, value@),
    {
        proof {
            use_type_invariant(&*self);
        }
        let ghost old_entries = self.entries@;
        let found = self.find(&key);
        let mut entries: Vec<(String, Vec<u8>)> = Vec::new();
        std::mem::swap(&mut entries, &mut self.entries);
        match found {
            Some(i) => {
                entries.set(i, (key, value));
                proof {
                    let new_entries = entries@;
                    assert forall|a: int, b: int|
                        0 <= a < new_entries.len() && 0 <= b < new_entries.len() && a != b
                            implies #[trigger] new_entries[a].0@ != #[trigger] new_entries[b].0@ by {
                        assert(old_entries[a].0@ != old_entries[b].0@);
                    }
                    lemma_view_insert(old_entries, new_entries, i as int);
                }
            },
            None => {
                entries.push((key, value));
                proof {
                    let new_entries = entries@;
                    let n = old_entries.len() as int;
                    assert forall|j: int| 0 <= j < n implies old_entries[j].0@ != new_entries[n].0@ by {
                        if old_entries[j].0@ == new_entries[n].0@ {
                            assert(stored_at(old_entries, new_entries[n].0@, j));
                        }
                    }
                    assert forall|a: int, b: int|
                        0 <= a < new_entries.len() && 0 <= b < new_entries.len() && a != b
                            implies #[trigger] new_entries[a].0@ != #[trigger] new_entries[b].0@ by {
                        if a < n && b < n {
                            assert(old_entries[a].0@ != old_entries[b].0@);
                        }
                    }
                    lemma_view_insert(old_entries, new_entries, n);
                }
            },
        }
        self.entries = entries;
    }

    /// Applies a served command: answers a `GET` from the store, and puts
    /// the value of a `SET` into it.
    pub fn apply(&mut self, command: Command) -> (response: Frame)
        requires
            is_served(command),
        ensures
            final(self)@ == store_after(old(self)@, command),
            is_response(old(self)@, command, response),
    {
        match command {
            Command::Get { key } => match self.get(&key) {
                Some(value) => Frame::Bulk(copy_bytes(value)),
                None => Frame::Null,
            },
            Command::SetValue { key, value, .. } => {
                self.set(key, value);
                let ok = String::from_str("OK");
                proof {
                    reveal_strlit("OK");
                }
                assert(ok@ =~= seq!['O', 'K']);
                Frame::Simple(ok)
            },
            _ => Frame::Null,
        }
    }
}

/// Entries that keep the entries of `old_entries` in place, save that the
/// one at `p` is new or replaces one with the same key, hold the view of
/// `old_entries` with the key at `p` now mapped to its value there.
proof fn lemma_view_insert(old_entries: Seq<(String, Vec<u8>)>, new_entries: Seq<(String, Vec<u8>)>, p: int)
    requires
        keys_distinct(old_entries),
        keys_distinct(new_entries),
        0 <= p < new_entries.len(),
        p < old_entries.len() ==> new_entries.len() == old_entries.len() && old_entries[p].0@
            == new_entries[p].0@,
        p >= old_entries.len() ==> p == old_entries.len() && new_entries.len() == old_entries.len() + 1,
        forall|j: int| 0 <= j < old_entries.len() && j != p ==> new_entries[j] == old_entries[j],
    ensures
        entries_view(new_entries) == entries_view(old_entries).insert(new_entries[p].0@, new_entries[p].1@),
{
    let k = new_entries[p].0@;
    let nv = entries_view(new_entries);
    let ov = entries_view(old_entries).insert(k, new_entries[p].1@);
    assert forall|key: Seq<char>| #[trigger] nv.contains_key(key) <==> ov.contains_key(key) by {
        if nv.contains_key(key) && key != k {
            let j = choose|j: int| #[trigger] stored_at(new_entries, key, j);
            assert(j != p);
            assert(stored_at(old_entries, key, j));
        }
        if ov.contains_key(key) && key != k {
            let j = choose|j: int| #[trigger] stored_at(old_entries, key, j);
            assert(j != p);
            assert(stored_at(new_entries, key, j));
        }
        if key == k {
            assert(stored_at(new_entries, key, p));
        }
    }
    assert forall|key: Seq<char>| #[trigger] nv.contains_key(key) implies nv[key] == ov[key] by {
        let j = choose|j: int| #[trigger] stored_at(new_entries, key, j);
        if key == k {
            assert(stored_at(new_entries, key, p));
        } else {
            assert(j != p);
            assert(stored_at(old_entries, key, j));
            let j2 = choose|j2: int| #[trigger] stored_at(old_entries, key, j2);
            assert(j2 == j);
        }
    }
    assert(nv =~= ov);
}

/// A `GET` of the key that a `SET` wrote is answered with the value it
/// wrote, whatever the store held before.
pub proof fn law_get_after_set(
    store: Map<Seq<char>, Seq<u8>>,
    key: String,
    value: Vec<u8>,
    expire_millis: Option<u128>,
    get_key: String,
    response: Frame,
)
    requires
        get_key@ == key@,
    ensures
        is_response(
            store_after(store, Command::SetValue { key, value, expire_millis }),
            Command::Get { key: get_key },
            response,
        ) <==> (response matches Frame::Bulk(v) && v@ == value@),
{
}

/// A `SET` leaves what a `GET` of any other key is answered with as it was.
pub proof fn law_set_keeps_other_keys(
    store: Map<Seq<char>, Seq<u8>>,
    key: String,
    value: Vec<u8>,
    expire_millis: Option<u128>,
    get_key: String,
    response: Frame,
)
    requires
        get_key@ != key@,
    ensures
        is_response(
            store_after(store, Command::SetValue { key, value, expire_millis }),
            Command::Get { key: get_key },
            response,
        ) <==> is_response(store, Command::Get { key: get_key }, response),
{
}

/// A `GET` does not change the store, and a `GET` of a key that was never
/// set is answered with null.
pub proof fn law_get_reads_only(store: Map<Seq<char>, Seq<u8>>, key: String, response: Frame)
    ensures
        store_after(store, Command::Get { key }) == store,
        !store.contains_key(key@) ==> (is_response(store, Command::Get { key }, response)
            <==> response is Null),
{
}

/// A second `SET` of a key replaces the first: the store is the same as
/// after the second alone.
pub proof fn law_set_overwrites(
    store: Map<Seq<char>, Seq<u8>>,
    first: Command,
    second: Command,
)
    requires
        first matches Command::SetValue { key: k1, .. } && second matches Command::SetValue { key: k2, .. }
            && k1@ == k2@,
    ensures
        store_after(store_after(store, first), second) == store_after(store, second),
{
    match (first, second) {
        (Command::SetValue { key: k1, value: v1, .. }, Command::SetValue { key: k2, value: v2, .. }) => {
            assert(store.insert(k1@, v1@).insert(k2@, v2@) =~= store.insert(k2@, v2@));
        },
        _ => {},
    }
}

/// The store after `commands`, applied in order to `store`.
pub open spec fn store_after_all(store: Map<Seq<char>, Seq<u8>>, commands: Seq<Command>) -> Map<
    Seq<char>,
    Seq<u8>,
>
    decreases commands.len(),
{
    if commands.len() == 0 {
        store
    } else {
        store_after(store_after_all(store, commands.drop_last()), commands.last())
    }
}

/// Whether `command` is a `SET` of `key`.
pub open spec fn sets_key(command: Command, key: Seq<char>) -> bool {
    command matches Command::SetValue { key: k, .. } && k@ == key
}

/// Each connection owns a store of its own, made empty ([`Db::new`]): after
/// any commands on that connection none of which set `key`, a `GET` of `key`
/// is answered with null, whatever other connections stored.
pub proof fn law_unset_key_reads_null(commands: Seq<Command>, key: String, response: Frame)
    requires
        forall|i: int| 0 <= i < commands.len() ==> !sets_key(#[trigger] commands[i], key@),
    ensures
        is_response(store_after_all(Map::empty(), commands), Command::Get { key }, response)
            <==> response is Null,
{
    lemma_unset_key_kept(Map::empty(), commands, key@);
}

/// Where connections share one store, each command runs on it whole, one
/// after another, so the commands of all of them form one sequence: once a
/// `SET` of a key has been answered, a `GET` of that key on any connection
/// is answered with the value it wrote, as long as no later command sets
/// the key again.
pub proof fn law_set_visible_until_overwritten(
    store: Map<Seq<char>, Seq<u8>>,
    key: String,
    value: Vec<u8>,
    expire_millis: Option<u128>,
    later: Seq<Command>,
    get_key: String,
    response: Frame,
)
    requires
        forall|i: int| 0 <= i < later.len() ==> !sets_key(#[trigger] later[i], key@),
        get_key@ == key@,
    ensures
        is_response(
            store_after_all(store_after(store, Command::SetValue { key, value, expire_millis }), later),
            Command::Get { key: get_key },
            response,
        ) <==> (response matches Frame::Bulk(v) && v@ == value@),
{
    lemma_unset_key_kept(store_after(store, Command::SetValue { key, value, expire_millis }), later, key@);
}

/// Commands none of which set `key` leave what the store holds under `key`
/// as it was.
proof fn lemma_unset_key_kept(store: Map<Seq<char>, Seq<u8>>, commands: Seq<Command>, key: Seq<char>)
    requires
        forall|i: int| 0 <= i < commands.len() ==> !sets_key(#[trigger] commands[i], key),
    ensures
        store_after_all(store, commands).contains_key(key) == store.contains_key(key),
        store.contains_key(key) ==> store_after_all(store, commands)[key] == store[key],
    decreases commands.len(),
{
    if commands.len() > 0 {
        let rest = commands.drop_last();
        assert forall|i: int| 0 <= i < rest.len() implies !sets_key(#[trigger] rest[i], key) by {
            assert(rest[i] == commands[i]);
        }
        lemma_unset_key_kept(store, rest, key);
        assert(!sets_key(commands[commands.len() - 1], key));
    }
}

/// Why a received frame is not answered.
#[derive(Debug, PartialEq, Eq)]
pub enum ProcessError {
    /// The frame is not a command; the message says why.
    Malformed(String),
    /// The command is one the store does not serve.
    Unsupported(Command),
}

/// Answers a command read from a frame, or the message of why none could be
/// read: a `GET` or a `SET` is applied to the store; a frame that is not a
/// command, and a command other than `GET` or `SET`, are refused and leave
/// the store as it was.
pub fn respond(db: &mut Db, command: Result<Command, String>) -> (r: Result<Frame, ProcessError>)
    ensures
        match command {
            Err(e) => r == Err::<Frame, ProcessError>(ProcessError::Malformed(e)) && final(db)@ == old(db)@,
            Ok(command) => if is_served(command) {
                &&& final(db)@ == store_after(old(db)@, command)
                &&& r matches Ok(response) && is_response(old(db)@, command, response)
            } else {
                r == Err::<Frame, ProcessError>(ProcessError::Unsupported(command)) && final(db)@ == old(db)@
            },
        },
{
    match command {
        Err(e) => Err(ProcessError::Malformed(e)),
        Ok(command) => {
            if matches!(command, Command::Get { .. } | Command::SetValue { .. }) {
                Ok(db.apply(command))
            } else {
                Err(ProcessError::Unsupported(command))
            }
        },
    }
}

/// Handles one received frame: reads the command in it and answers it as
/// [`respond`] does.
pub fn process_frame(db: &mut Db, frame: Frame) -> (r: Result<Frame, ProcessError>)
    ensures
        match spec_command_from_frame(frame) {
            Err(e) => r == Err::<Frame, ProcessError>(ProcessError::Malformed(e)) && final(db)@ == old(db)@,
            Ok(command) => if is_served(command) {
                &&& final(db)@ == store_after(old(db)@, command)
                &&& r matches Ok(response) && is_response(old(db)@, command, response)
            } else {
                r == Err::<Frame, ProcessError>(ProcessError::Unsupported(command)) && final(db)@ == old(db)@
            },
        },
{
    respond(db, command_from_frame(frame))
}

} // verus!
