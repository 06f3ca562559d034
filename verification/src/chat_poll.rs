//! The decisions of the CLI's chat poller: which files of the synced folder
//! are chats, which of their messages are new and for a person rather than
//! the agent, what the poller remembers of each chat, and how often it polls.
use vstd::prelude::*;

use crate::text::{has_suffix, parse_u64, parse_u64_spec, trim, trim_str};

verus! {

/// One message of a chat file.
#[derive(Clone, Debug, PartialEq)]
pub struct Message {
    pub from: String,
    pub content: String,
    pub ts: i64,
}

pub struct MessageView {
    pub from: Seq<char>,
    pub content: Seq<char>,
    pub ts: i64,
}

impl View for Message {
    type V = MessageView;

    open spec fn view(&self) -> MessageView {
        MessageView { from: self.from@, content: self.content@, ts: self.ts }
    }
}

pub fn clone_message(m: &Message) -> (r: Message)
    ensures
        r@ == m@,
{
    Message { from: m.from.clone(), content: m.content.clone(), ts: m.ts }
}

/// What the poller remembers of one chat: the hash of its content when it
/// was last read, and the time of the last message it has seen.
#[derive(Clone, Copy, Debug, PartialEq, Eq)]
pub struct ChatState {
    pub content_hash: [u8; 32],
    pub last_processed_ts: i64,
}

/// A file of the synced folder as the sync state records it.
#[derive(Clone, Debug, PartialEq)]
pub struct FsBaseEntry {
    pub local_path: String,
    pub content_hash: [u8; 32],
    pub lb_last_modified: u64,
}

/// A chat file and the hash of its content.
#[derive(Clone, Debug, PartialEq)]
pub struct ChatEntry {
    pub local_path: String,
    pub content_hash: [u8; 32],
}

/// A message handed to the webhook.
#[derive(Clone, Debug, PartialEq)]
pub struct WebhookMessage {
    pub from: String,
    pub content: String,
    pub ts: i64,
}

/// What the poller posts to the webhook for one chat.
#[derive(Clone, Debug, PartialEq)]
pub struct WebhookPayload {
    pub thread: String,
    pub messages: Vec<WebhookMessage>,
    pub sync_dir: String,
    pub agent_name: String,
}

/// The poll interval: whole seconds plus milliseconds.
#[derive(Clone, Copy, Debug, PartialEq, Eq, Structural)]
pub struct PollDuration {
    pub secs: u64,
    pub millis: u64,
}

pub open spec fn messages_view(s: Seq<Message>) -> Seq<MessageView> {
    s.map_values(|m: Message| m@)
}

/// A path names a chat file where it ends in `.chat`.
pub open spec fn is_chat_path(p: Seq<char>) -> bool {
    has_suffix(p, seq!['.', 'c', 'h', 'a', 't'])
}

/// Whether `local_path` names a chat file.
pub fn is_chat_file(local_path: &str) -> (r: bool)
    ensures
        r == is_chat_path(local_path@),
{
    let n = local_path.unicode_len();
    if n < 5 {
        return false;
    }
    let r = local_path.get_char(n - 5) == '.' && local_path.get_char(n - 4) == 'c'
        && local_path.get_char(n - 3) == 'h' && local_path.get_char(n - 2) == 'a'
        && local_path.get_char(n - 1) == 't';
    let ghost tail = local_path@.subrange(n - 5, n as int);
    assert(r ==> tail =~= seq!['.', 'c', 'h', 'a', 't']);
    assert(tail == seq!['.', 'c', 'h', 'a', 't'] ==> tail[0] == '.' && tail[1] == 'c' && tail[2]
        == 'h' && tail[3] == 'a' && tail[4] == 't');
    r
}

/// `acc` with chat `path` recorded with hash `hash`: the entry for `path`
/// takes the new hash, or a new entry is added behind the others.
pub open spec fn record_chat(acc: Seq<(Seq<char>, Seq<u8>)>, path: Seq<char>, hash: Seq<u8>) -> Seq<
    (Seq<char>, Seq<u8>),
> {
    if exists|i: int| 0 <= i < acc.len() && (#[trigger] acc[i]).0 == path {
        acc.update(choose|i: int| 0 <= i < acc.len() && (#[trigger] acc[i]).0 == path, (path, hash))
    } else {
        acc.push((path, hash))
    }
}

/// The chat files of the sync state, one entry per path, in the order in
/// which the paths first appear, each with the hash of its last entry.
pub open spec fn chat_entries_spec(fs_base: Seq<FsBaseEntry>) -> Seq<(Seq<char>, Seq<u8>)>
    decreases fs_base.len(),
{
    if fs_base.len() == 0 {
        Seq::empty()
    } else {
        let acc = chat_entries_spec(fs_base.drop_last());
        let e = fs_base.last();
        if is_chat_path(e.local_path@) {
            record_chat(acc, e.local_path@, e.content_hash@)
        } else {
            acc
        }
    }
}

/// No two entries share a path.
pub open spec fn paths_distinct(acc: Seq<(Seq<char>, Seq<u8>)>) -> bool {
    forall|i: int, j: int| 0 <= i < j < acc.len() ==> (#[trigger] acc[i]).0 != (#[trigger] acc[j]).0
}

pub open spec fn chat_entries_view(r: Seq<ChatEntry>) -> Seq<(Seq<char>, Seq<u8>)> {
    r.map_values(|c: ChatEntry| (c.local_path@, c.content_hash@))
}

/// The chat files of the sync state, keyed by path: one entry per path,
/// with the hash of the path's last entry.
pub fn chat_entries_from_fs_base(fs_base: &Vec<FsBaseEntry>) -> (r: Vec<ChatEntry>)
    ensures
        chat_entries_view(r@) == chat_entries_spec(fs_base@),
        paths_distinct(chat_entries_view(r@)),
{
    let mut r: Vec<ChatEntry> = Vec::new();
    let mut i: usize = 0;
    proof {
        assert(fs_base@.take(0) =~= Seq::<FsBaseEntry>::empty());
        assert(chat_entries_view(r@) =~= Seq::<(Seq<char>, Seq<u8>)>::empty());
    }
    while i < fs_base.len()
        invariant
            i <= fs_base@.len(),
            chat_entries_view(r@) == chat_entries_spec(fs_base@.take(i as int)),
            paths_distinct(chat_entries_view(r@)),
        decreases fs_base@.len() - i,
    {
        let ghost acc = chat_entries_view(r@);
        assert(fs_base@.take(i + 1).drop_last() =~= fs_base@.take(i as int));
        assert(fs_base@.take(i + 1).last() == fs_base@[i as int]);
        let e = &fs_base[i];
        if is_chat_file(e.local_path.as_str()) {
            let mut j: usize = 0;
            let mut found = false;
            while j < r.len()
                invariant_except_break
                    !found,
                invariant
                    j <= r@.len(),
                    acc == chat_entries_view(r@),
                    forall|q: int| 0 <= q < j ==> (#[trigger] acc[q]).0 != e.local_path@,
                ensures
                    found ==> j < r@.len() && acc[j as int].0 == e.local_path@,
                    !found ==> forall|q: int| 0 <= q < acc.len() ==> (#[trigger] acc[q]).0 != e.local_path@,
                decreases r@.len() - j,
            {
                if r[j].local_path == e.local_path {
                    found = true;
                    break;
                }
                j = j + 1;
            }
            if found {
                proof {
                    assert(acc[j as int].0 == e.local_path@);
                    let c = choose|q: int| 0 <= q < acc.len() && (#[trigger] acc[q]).0 == e.local_path@;
                    if c != j as int {
                        if c < j {
                            assert(acc[c].0 != e.local_path@);
                        } else {
                            assert(acc[j as int].0 != acc[c].0);
                        }
                    }
                    assert(record_chat(acc, e.local_path@, e.content_hash@) == acc.update(j as int, (e.local_path@, e.content_hash@)));
                }
                r.set(j, ChatEntry { local_path: e.local_path.clone(), content_hash: e.content_hash });
                proof {
                    assert(chat_entries_view(r@) =~= acc.update(j as int, (e.local_path@, e.content_hash@)));
                }
            } else {
                r.push(ChatEntry { local_path: e.local_path.clone(), content_hash: e.content_hash });
                proof {
                    assert(chat_entries_view(r@) =~= acc.push((e.local_path@, e.content_hash@)));
                    assert(!exists|q: int| 0 <= q < acc.len() && (#[trigger] acc[q]).0 == e.local_path@);
                }
            }
        }
        i = i + 1;
    }
    assert(fs_base@.take(fs_base@.len() as int) =~= fs_base@);
    r
}

/// Whether two hashes are equal.
pub fn hash_eq(a: &[u8; 32], b: &[u8; 32]) -> (r: bool)
    ensures
        r == (a@ == b@),
{
    let mut i: usize = 0;
    while i < 32
        invariant
            i <= 32,
            a@.len() == 32,
            b@.len() == 32,
            forall|j: int| 0 <= j < i ==> a@[j] == b@[j],
        decreases 32 - i,
    {
        if a[i] != b[i] {
            return false;
        }
        i = i + 1;
    }
    assert(a@ =~= b@);
    true
}

/// A message is new for the agent where it came after the last one seen and
/// was not written by the agent.
pub open spec fn is_new_message(m: MessageView, last_ts: i64, agent_name: Seq<char>) -> bool {
    m.ts > last_ts && m.from != agent_name
}

/// The messages of a chat that are new for the agent.
pub open spec fn new_messages(
    messages: Seq<MessageView>,
    last_ts: i64,
    agent_name: Seq<char>,
) -> Seq<MessageView> {
    messages.filter(|m: MessageView| is_new_message(m, last_ts, agent_name))
}

/// Whether a chat's content has changed since the poller last read it.
pub fn content_changed(state: &ChatState, fs_base_hash: &[u8; 32]) -> (r: bool)
    ensures
        r == (state.content_hash@ != fs_base_hash@),
{
    !hash_eq(&state.content_hash, fs_base_hash)
}

/// Finds the messages of a chat that are new for the agent, and remembers
/// the new hash and the time of the chat's last message. Where the hash is
/// unchanged, nothing is new and nothing changes.
pub fn find_new_messages(
    messages: &Vec<Message>,
    agent_name: &str,
    fs_base_hash: [u8; 32],
    state: &mut ChatState,
) -> (r: Vec<Message>)
    ensures
        old(state).content_hash@ == fs_base_hash@ ==> r@.len() == 0 && *final(state) == *old(state),
        old(state).content_hash@ != fs_base_hash@ ==> messages_view(r@) == new_messages(
            messages_view(messages@),
            old(state).last_processed_ts,
            agent_name@,
        ),
        old(state).content_hash@ != fs_base_hash@ ==> forall|i: int|
            0 <= i < r@.len() ==> (#[trigger] r@[i]).ts > old(state).last_processed_ts
                && r@[i].from@ != agent_name@,
        old(state).content_hash@ != fs_base_hash@ ==> forall|j: int|
            0 <= j < messages@.len() && (#[trigger] messages@[j]).ts > old(state).last_processed_ts
                && messages@[j].from@ != agent_name@ ==> messages_view(r@).contains(messages@[j]@),
        old(state).content_hash@ != fs_base_hash@ ==> final(state).content_hash == fs_base_hash,
        old(state).content_hash@ != fs_base_hash@ ==> final(state).last_processed_ts == (if messages@.len()
            > 0 {
            messages@.last().ts
        } else {
            old(state).last_processed_ts
        }),
{
    if !content_changed(state, &fs_base_hash) {
        return Vec::new();
    }
    let agent = agent_name.to_owned();
    let last_ts = state.last_processed_ts;
    let ghost s = messages_view(messages@);
    let ghost pred = |m: MessageView| is_new_message(m, last_ts, agent_name@);
    let mut new_msgs: Vec<Message> = Vec::new();
    let mut i: usize = 0;
    while i < messages.len()
        invariant
            i <= messages@.len(),
            s == messages_view(messages@),
            agent@ == agent_name@,
            pred == (|m: MessageView| is_new_message(m, last_ts, agent_name@)),
            messages_view(new_msgs@) == s.take(i as int).filter(pred),
        decreases messages@.len() - i,
    {
        let ghost before = messages_view(new_msgs@);
        assert(s.take(i + 1).drop_last() =~= s.take(i as int));
        assert(s.take(i + 1).last() == messages@[i as int]@);
        reveal_with_fuel(Seq::<_>::filter, 1);
        let m = &messages[i];
        if m.ts > last_ts && !(m.from == agent) {
            new_msgs.push(clone_message(m));
            assert(messages_view(new_msgs@) =~= before.push(m@));
        } else {
            assert(messages_view(new_msgs@) =~= before);
        }
        i = i + 1;
    }
    assert(s.take(messages@.len() as int) =~= s);
    proof {
        crate::laws::law_new_messages_are_for_the_agent(s, last_ts, agent_name@);
        assert forall|i: int| 0 <= i < new_msgs@.len() implies (#[trigger] new_msgs@[i]).ts > last_ts
            && new_msgs@[i].from@ != agent_name@ by {
            assert(messages_view(new_msgs@)[i] == new_msgs@[i]@);
        }
        assert forall|j: int|
            0 <= j < messages@.len() && (#[trigger] messages@[j]).ts > last_ts
                && messages@[j].from@ != agent_name@ implies messages_view(new_msgs@).contains(messages@[j]@) by {
            assert(s[j] == messages@[j]@);
        }
    }
    if messages.len() > 0 {
        state.last_processed_ts = messages[messages.len() - 1].ts;
    }
    state.content_hash = fs_base_hash;
    new_msgs
}

/// What the poller first remembers of a chat: its hash, and the time of
/// its last message, or 0 where it has none.
pub fn initial_chat_state(content_hash: [u8; 32], messages: &Vec<Message>) -> (r: ChatState)
    ensures
        r.content_hash == content_hash,
        r.last_processed_ts == (if messages@.len() > 0 {
            messages@.last().ts
        } else {
            0
        }),
{
    let last_processed_ts = if messages.len() > 0 {
        messages[messages.len() - 1].ts
    } else {
        0
    };
    ChatState { content_hash, last_processed_ts }
}

/// A chat that the poller tracks.
#[derive(Clone, Debug)]
pub struct TrackedChat {
    pub path: String,
    pub state: ChatState,
}

/// The state of each chat that the poller tracks, by path.
pub struct ChatStates {
    entries: Vec<TrackedChat>,
}

/// The first state recorded for `path`.
pub open spec fn lookup_chat(s: Seq<(Seq<char>, ChatState)>, path: Seq<char>) -> Option<ChatState>
    decreases s.len(),
{
    if s.len() == 0 {
        None
    } else if s[0].0 == path {
        Some(s[0].1)
    } else {
        lookup_chat(s.drop_first(), path)
    }
}

impl ChatStates {
    /// The tracked chats, in the order they were first recorded.
    pub closed spec fn entries_view(&self) -> Seq<(Seq<char>, ChatState)> {
        self.entries@.map_values(|t: TrackedChat| (t.path@, t.state))
    }

    /// The state recorded for `path`, if any.
    pub open spec fn state_of(&self, path: Seq<char>) -> Option<ChatState> {
        lookup_chat(self.entries_view(), path)
    }

    pub fn new() -> (r: ChatStates)
        ensures
            r.entries_view() == Seq::<(Seq<char>, ChatState)>::empty(),
    {
        let r = ChatStates { entries: Vec::new() };
        assert(r.entries_view() =~= Seq::<(Seq<char>, ChatState)>::empty());
        r
    }

    /// How many chats are tracked.
    pub fn len(&self) -> (r: usize)
        ensures
            r == self.entries_view().len(),
    {
        self.entries.len()
    }

    fn find(&self, path: &String) -> (r: Option<usize>)
        ensures
            r is None <==> self.state_of(path@) is None,
            r matches Some(i) ==> i < self.entries_view().len() && self.entries_view()[i as int].0
                == path@ && self.state_of(path@) == Some(self.entries_view()[i as int].1)
                && forall|j: int| 0 <= j < i ==> self.entries_view()[j].0 != path@,
    {
        let ghost s = self.entries_view();
        assert(s.skip(0) =~= s);
        let mut i: usize = 0;
        while i < self.entries.len()
            invariant
                i <= self.entries@.len(),
                s == self.entries_view(),
                s.len() == self.entries@.len(),
                lookup_chat(s, path@) == lookup_chat(s.skip(i as int), path@),
                forall|j: int| 0 <= j < i ==> s[j].0 != path@,
            decreases self.entries@.len() - i,
        {
            assert(s.skip(i as int)[0] == s[i as int]);
            assert(s.skip(i as int).drop_first() =~= s.skip(i + 1));
            if self.entries[i].path == *path {
                return Some(i);
            }
            i = i + 1;
        }
        assert(s.skip(i as int) =~= Seq::<(Seq<char>, ChatState)>::empty());
        None
    }

    /// The state recorded for `path`, if any.
    pub fn get(&self, path: &str) -> (r: Option<ChatState>)
        ensures
            r == self.state_of(path@),
    {
        let p = path.to_owned();
        match self.find(&p) {
            Some(i) => Some(self.entries[i].state),
            None => None,
        }
    }

    /// Whether `path` is tracked.
    pub fn contains_key(&self, path: &str) -> (r: bool)
        ensures
            r == self.state_of(path@) is Some,
    {
        self.get(path).is_some()
    }

    /// Records `state` for `path`.
    pub fn insert(&mut self, path: &str, state: ChatState)
        ensures
            final(self).state_of(path@) == Some(state),
            forall|q: Seq<char>| q != path@ ==> final(self).state_of(q) == old(self).state_of(q),
            old(self).state_of(path@) is None ==> final(self).entries_view() == old(self).entries_view().push((path@, state)),
            old(self).state_of(path@) is Some ==> final(self).entries_view().len() == old(self).entries_view().len(),
    {
        let p = path.to_owned();
        let ghost s = self.entries_view();
        match self.find(&p) {
            Some(i) => {
                self.entries.set(i, TrackedChat { path: p, state });
                proof {
                    let s2 = self.entries_view();
                    assert(s2 =~= s.update(i as int, (path@, state)));
                    lemma_lookup_update(s, i as int, path@, state);
                }
            },
            None => {
                self.entries.push(TrackedChat { path: p, state });
                proof {
                    let s2 = self.entries_view();
                    assert(s2 =~= s.push((path@, state)));
                    lemma_lookup_push(s, path@, state);
                }
            },
        }
    }
}

/// Writing the state of the first entry for a path changes what it looks
/// up to and nothing else.
pub proof fn lemma_lookup_update(
    s: Seq<(Seq<char>, ChatState)>,
    i: int,
    path: Seq<char>,
    st: ChatState,
)
    requires
        0 <= i < s.len(),
        s[i].0 == path,
        forall|j: int| 0 <= j < i ==> s[j].0 != path,
    ensures
        lookup_chat(s.update(i, (path, st)), path) == Some(st),
        forall|q: Seq<char>| q != path ==> lookup_chat(s.update(i, (path, st)), q) == lookup_chat(s, q),
{
    lemma_lookup_update_at(s, i, path, st, path);
    assert forall|q: Seq<char>| q != path implies lookup_chat(s.update(i, (path, st)), q) == lookup_chat(s, q) by {
        lemma_lookup_update_at(s, i, path, st, q);
    }
}

proof fn lemma_lookup_update_at(
    s: Seq<(Seq<char>, ChatState)>,
    i: int,
    path: Seq<char>,
    st: ChatState,
    q: Seq<char>,
)
    requires
        0 <= i < s.len(),
        s[i].0 == path,
        forall|j: int| 0 <= j < i ==> s[j].0 != path,
    ensures
        q == path ==> lookup_chat(s.update(i, (path, st)), q) == Some(st),
        q != path ==> lookup_chat(s.update(i, (path, st)), q) == lookup_chat(s, q),
    decreases s.len(),
{
    let s2 = s.update(i, (path, st));
    if i > 0 {
        assert(s2[0] == s[0]);
        assert(s2.drop_first() =~= s.drop_first().update(i - 1, (path, st)));
        if s[0].0 != q {
            lemma_lookup_update_at(s.drop_first(), i - 1, path, st, q);
        }
    } else {
        assert(s2[0] == (path, st));
        assert(s2.drop_first() =~= s.drop_first());
    }
}

/// Adding an entry for a path that had none makes it look up to that
/// state and changes nothing else.
pub proof fn lemma_lookup_push(s: Seq<(Seq<char>, ChatState)>, path: Seq<char>, st: ChatState)
    requires
        lookup_chat(s, path) is None,
    ensures
        lookup_chat(s.push((path, st)), path) == Some(st),
        forall|q: Seq<char>| q != path ==> lookup_chat(s.push((path, st)), q) == lookup_chat(s, q),
{
    lemma_lookup_push_at(s, path, st, path);
    assert forall|q: Seq<char>| q != path implies lookup_chat(s.push((path, st)), q) == lookup_chat(s, q) by {
        lemma_lookup_push_at(s, path, st, q);
    }
}

proof fn lemma_lookup_push_at(s: Seq<(Seq<char>, ChatState)>, path: Seq<char>, st: ChatState, q: Seq<char>)
    requires
        lookup_chat(s, path) is None,
    ensures
        q == path ==> lookup_chat(s.push((path, st)), q) == Some(st),
        q != path ==> lookup_chat(s.push((path, st)), q) == lookup_chat(s, q),
    decreases s.len(),
{
    let s2 = s.push((path, st));
    if s.len() > 0 {
        assert(s2[0] == s[0]);
        assert(s2.drop_first() =~= s.drop_first().push((path, st)));
        assert(s[0].0 != path);
        if s[0].0 != q {
            lemma_lookup_push_at(s.drop_first(), path, st, q);
        }
    } else {
        assert(s2[0] == (path, st));
        assert(s2.drop_first() =~= Seq::<(Seq<char>, ChatState)>::empty());
        assert(lookup_chat(s2.drop_first(), q) is None);
        assert(lookup_chat(s, q) is None);
    }
}

/// The hash that the poller knows of `path`: the recorded one, or all
/// zeroes for a chat it meets for the first time while polling.
pub open spec fn known_hash(states: ChatStates, path: Seq<char>) -> Seq<u8> {
    match states.state_of(path) {
        Some(st) => st.content_hash@,
        None => Seq::new(32, |i: int| 0u8),
    }
}

/// The time of the last message that the poller has seen of `path`: the
/// recorded one, or 0, so that every human message of a chat met for the
/// first time is new.
pub open spec fn known_ts(states: ChatStates, path: Seq<char>) -> i64 {
    match states.state_of(path) {
        Some(st) => st.last_processed_ts,
        None => 0,
    }
}

fn fresh_chat_state() -> (r: ChatState)
    ensures
        r.content_hash@ == Seq::new(32, |i: int| 0u8),
        r.last_processed_ts == 0,
{
    let r = ChatState { content_hash: [0u8; 32], last_processed_ts: 0 };
    assert(r.content_hash@ =~= Seq::new(32, |i: int| 0u8));
    r
}

/// The state that the poller has of `path`, or a fresh one.
fn state_or_fresh(states: &ChatStates, path: &str) -> (r: ChatState)
    ensures
        r.content_hash@ == known_hash(*states, path@),
        r.last_processed_ts == known_ts(*states, path@),
        states.state_of(path@) matches Some(st) ==> r == st,
        states.state_of(path@) is None ==> r.last_processed_ts == 0 && r.content_hash@ == Seq::new(
            32,
            |i: int| 0u8,
        ),
{
    match states.get(path) {
        Some(st) => st,
        None => fresh_chat_state(),
    }
}

/// Starts tracking one file of the sync state at start-up: a chat file is
/// recorded with its hash and the time of its last message; other files are
/// passed over.
pub fn initialize_entry(states: &mut ChatStates, entry: &FsBaseEntry, messages: &Vec<Message>)
    ensures
        !is_chat_path(entry.local_path@) ==> *final(states) == *old(states),
        is_chat_path(entry.local_path@) ==> final(states).state_of(entry.local_path@) == Some(
            ChatState {
                content_hash: entry.content_hash,
                last_processed_ts: if messages@.len() > 0 {
                    messages@.last().ts
                } else {
                    0
                },
            },
        ),
        is_chat_path(entry.local_path@) ==> forall|q: Seq<char>|
            q != entry.local_path@ ==> final(states).state_of(q) == old(states).state_of(q),
        is_chat_path(entry.local_path@) ==> final(states).entries_view().len() == old(states).entries_view().len() + if old(states).state_of(entry.local_path@) is None {
            1int
        } else {
            0int
        },
{
    if !is_chat_file(entry.local_path.as_str()) {
        return;
    }
    let st = initial_chat_state(entry.content_hash, messages);
    states.insert(entry.local_path.as_str(), st);
}

/// Whether the poller must read chat `path` this round: its content
/// changed since the poller last read it (a chat it meets for the first
/// time counts as changed unless its hash is all zeroes).
pub fn needs_read(states: &ChatStates, path: &str, fs_base_hash: &[u8; 32]) -> (r: bool)
    ensures
        r == (known_hash(*states, path@) != fs_base_hash@),
{
    let st = state_or_fresh(states, path);
    content_changed(&st, fs_base_hash)
}

/// Polls one chat: finds its messages that are new for the agent, with the
/// state the poller has of it (a fresh one for a chat it meets for the first
/// time), and records the updated state.
pub fn poll_chat(
    states: &mut ChatStates,
    path: &str,
    agent_name: &str,
    fs_base_hash: [u8; 32],
    messages: &Vec<Message>,
) -> (r: Vec<Message>)
    ensures
        final(states).state_of(path@) is Some,
        known_hash(*old(states), path@) == fs_base_hash@ ==> r@.len() == 0 && final(states).state_of(path@)->Some_0.content_hash@ == known_hash(*old(states), path@)
            && final(states).state_of(path@)->Some_0.last_processed_ts == known_ts(*old(states), path@),
        known_hash(*old(states), path@) != fs_base_hash@ ==> messages_view(r@) == new_messages(
            messages_view(messages@),
            known_ts(*old(states), path@),
            agent_name@,
        ),
        known_hash(*old(states), path@) != fs_base_hash@ ==> final(states).state_of(path@) == Some(
            ChatState {
                content_hash: fs_base_hash,
                last_processed_ts: if messages@.len() > 0 {
                    messages@.last().ts
                } else {
                    known_ts(*old(states), path@)
                },
            },
        ),
        old(states).state_of(path@) matches Some(st) ==> (st.content_hash@ == fs_base_hash@ ==> r@.len()
            == 0 && final(states).state_of(path@) == Some(st)),
        old(states).state_of(path@) matches Some(st) ==> (st.content_hash@ != fs_base_hash@ ==> (
        forall|i: int|
            0 <= i < r@.len() ==> (#[trigger] r@[i]).ts > st.last_processed_ts && r@[i].from@
                != agent_name@)),
        old(states).state_of(path@) matches Some(st) ==> (st.content_hash@ != fs_base_hash@ ==> (
        forall|j: int|
            0 <= j < messages@.len() && (#[trigger] messages@[j]).ts > st.last_processed_ts
                && messages@[j].from@ != agent_name@ ==> messages_view(r@).contains(messages@[j]@))),
        old(states).state_of(path@) matches Some(st) ==> (st.content_hash@ != fs_base_hash@
            ==> final(states).state_of(path@) == Some(
            ChatState {
                content_hash: fs_base_hash,
                last_processed_ts: if messages@.len() > 0 {
                    messages@.last().ts
                } else {
                    st.last_processed_ts
                },
            },
        )),
        old(states).state_of(path@) is None ==> forall|i: int|
            0 <= i < r@.len() ==> (#[trigger] r@[i]).ts > 0 && r@[i].from@ != agent_name@,
        forall|q: Seq<char>| q != path@ ==> final(states).state_of(q) == old(states).state_of(q),
        final(states).entries_view().len() == old(states).entries_view().len() + if old(states).state_of(path@) is None {
            1int
        } else {
            0int
        },
{
    let mut st = state_or_fresh(states, path);
    let new_msgs = find_new_messages(messages, agent_name, fs_base_hash, &mut st);
    states.insert(path, st);
    new_msgs
}

/// The payload that the poller posts for the new messages of one chat.
pub fn webhook_payload(
    thread: &str,
    messages: &Vec<Message>,
    sync_dir: &str,
    agent_name: &str,
) -> (r: WebhookPayload)
    ensures
        r.thread@ == thread@,
        r.sync_dir@ == sync_dir@,
        r.agent_name@ == agent_name@,
        r.messages@.len() == messages@.len(),
        forall|i: int|
            0 <= i < messages@.len() ==> (#[trigger] r.messages@[i]).from@ == messages@[i].from@
                && r.messages@[i].content@ == messages@[i].content@ && r.messages@[i].ts
                == messages@[i].ts,
{
    let mut out: Vec<WebhookMessage> = Vec::new();
    let mut i: usize = 0;
    while i < messages.len()
        invariant
            i <= messages@.len(),
            out@.len() == i,
            forall|j: int|
                0 <= j < i ==> (#[trigger] out@[j]).from@ == messages@[j].from@ && out@[j].content@
                    == messages@[j].content@ && out@[j].ts == messages@[j].ts,
        decreases messages@.len() - i,
    {
        let m = &messages[i];
        out.push(WebhookMessage { from: m.from.clone(), content: m.content.clone(), ts: m.ts });
        i = i + 1;
    }
    WebhookPayload {
        thread: thread.to_owned(),
        messages: out,
        sync_dir: sync_dir.to_owned(),
        agent_name: agent_name.to_owned(),
    }
}

/// The message of a poll interval that cannot be read.
pub open spec fn invalid_duration(t: Seq<char>) -> Seq<char> {
    "invalid duration: "@ + t
}

/// The interval that `parse_duration` reads from `s`, or its message: `Nms`
/// is N milliseconds, `Ns` N seconds, `Nm` N minutes and a bare number
/// seconds.
pub open spec fn parse_duration_spec(s: Seq<char>) -> Result<PollDuration, Seq<char>> {
    let t = trim(s);
    if has_suffix(t, seq!['m', 's']) {
        match parse_u64_spec(t.subrange(0, t.len() - 2)) {
            Some(v) => Ok(PollDuration { secs: 0, millis: v }),
            None => Err(invalid_duration(t)),
        }
    } else if t.len() > 0 && t.last() == 's' {
        match parse_u64_spec(t.drop_last()) {
            Some(v) => Ok(PollDuration { secs: v, millis: 0 }),
            None => Err(invalid_duration(t)),
        }
    } else if t.len() > 0 && t.last() == 'm' {
        match parse_u64_spec(t.drop_last()) {
            Some(v) => Ok(PollDuration { secs: (v * 60) as u64, millis: 0 }),
            None => Err(invalid_duration(t)),
        }
    } else {
        match parse_u64_spec(t) {
            Some(v) => Ok(PollDuration { secs: v, millis: 0 }),
            None => Err(invalid_duration(t) + " (expected e.g. 5s, 500ms, 1m)"@),
        }
    }
}

/// A number of minutes too large to count in seconds.
pub open spec fn minutes_overflow(s: Seq<char>) -> bool {
    let t = trim(s);
    &&& !(t.len() > 0 && t.last() == 's')
    &&& !has_suffix(t, seq!['m', 's'])
    &&& t.len() > 0 && t.last() == 'm'
    &&& parse_u64_spec(t.drop_last()) matches Some(v) && v * 60 > u64::MAX
}

/// Whether `s` gives a number of minutes too large to count in seconds.
pub fn duration_overflows(s: &str) -> (r: bool)
    ensures
        r == minutes_overflow(s@),
{
    let t = trim_str(s);
    let n = t.unicode_len();
    if n == 0 || t.get_char(n - 1) == 's' || t.get_char(n - 1) != 'm' {
        return false;
    }
    assert(!has_suffix(t@, seq!['m', 's'])) by {
        if has_suffix(t@, seq!['m', 's']) {
            assert(t@.subrange(t@.len() - 2, t@.len() as int)[1] == t@.last());
        }
    }
    let body = t.substring_char(0, n - 1);
    assert(body@ =~= t@.drop_last());
    match parse_u64(body) {
        Some(v) => v > u64::MAX / 60,
        None => false,
    }
}

/// Reads a poll interval.
pub fn parse_duration(s: &str) -> (r: Result<PollDuration, String>)
    requires
        !minutes_overflow(s@),
    ensures
        r matches Ok(d) ==> parse_duration_spec(s@) == Ok::<PollDuration, Seq<char>>(d),
        r matches Err(e) ==> parse_duration_spec(s@) == Err::<PollDuration, Seq<char>>(e@),
{
    let t = trim_str(s);
    let n = t.unicode_len();
    if n >= 2 && t.get_char(n - 2) == 'm' && t.get_char(n - 1) == 's' {
        let ms = t.substring_char(0, n - 2);
        assert(t@.subrange(n - 2, n as int) =~= seq!['m', 's']);
        return match parse_u64(ms) {
            Some(v) => Ok(PollDuration { secs: 0, millis: v }),
            None => Err(invalid_duration_message(t)),
        };
    }
    assert(!has_suffix(t@, seq!['m', 's'])) by {
        if has_suffix(t@, seq!['m', 's']) {
            assert(t@.subrange(t@.len() - 2, t@.len() as int)[1] == t@.last());
            assert(t@.subrange(t@.len() - 2, t@.len() as int)[0] == t@[t@.len() - 2]);
        }
    }
    if n > 0 && t.get_char(n - 1) == 's' {
        let secs = t.substring_char(0, n - 1);
        assert(secs@ =~= t@.drop_last());
        return match parse_u64(secs) {
            Some(v) => Ok(PollDuration { secs: v, millis: 0 }),
            None => Err(invalid_duration_message(t)),
        };
    }
    if n > 0 && t.get_char(n - 1) == 'm' {
        let m = t.substring_char(0, n - 1);
        assert(m@ =~= t@.drop_last());
        return match parse_u64(m) {
            Some(v) => Ok(PollDuration { secs: v * 60, millis: 0 }),
            None => Err(invalid_duration_message(t)),
        };
    }
    match parse_u64(t) {
        Some(v) => Ok(PollDuration { secs: v, millis: 0 }),
        None => {
            let mut e = invalid_duration_message(t);
            e.append(" (expected e.g. 5s, 500ms, 1m)");
            Err(e)
        },
    }
}

fn invalid_duration_message(t: &str) -> (e: String)
    ensures
        e@ == invalid_duration(t@),
{
    let mut e = String::from_str("invalid duration: ");
    e.append(t);
    e
}

} // verus!
