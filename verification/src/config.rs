//! What the user has configured: how states and bullets are written, which
//! names stand for which todo state, and which link handlers exist.
use vstd::prelude::*;

verus! {

/// How the state of a todo is written.
#[derive(Debug)]
pub struct TodoStateOps {
    /// What is written for a todo without a state.
    pub default: String,
    /// Whether the state stands in square brackets.
    pub brackets: bool,
}

/// The model of [`TodoStateOps`].
pub struct StateOps {
    pub default: Seq<char>,
    pub brackets: bool,
}

impl View for TodoStateOps {
    type V = StateOps;

    open spec fn view(&self) -> StateOps {
        StateOps { default: self.default@, brackets: self.brackets }
    }
}

impl TodoStateOps {
    /// Brackets are written unless the user has switched them off.
    pub fn new(default: String, brackets: Option<bool>) -> (ops: TodoStateOps)
        ensures
            ops@.default == default@,
            ops@.brackets == match brackets {
                Some(b) => b,
                None => true,
            },
    {
        let brackets = match brackets {
            Some(b) => b,
            None => true,
        };
        TodoStateOps { default, brackets }
    }
}

/// Whether no two entries have the same key.
spec fn keys_distinct(entries: Seq<(String, String)>) -> bool {
    forall|i: int, j: int|
        0 <= i < j < entries.len() ==> (#[trigger] entries[i]).0@ != (#[trigger] entries[j]).0@
}

/// Whether `entries[i]` is the entry of `key`.
spec fn is_entry_of(entries: Seq<(String, String)>, key: Seq<char>, i: int) -> bool {
    0 <= i < entries.len() && entries[i].0@ == key
}

/// The mapping that a list of entries with distinct keys stands for.
spec fn map_of(entries: Seq<(String, String)>) -> Map<Seq<char>, Seq<char>> {
    Map::new(
        |key: Seq<char>| exists|i: int| is_entry_of(entries, key, i),
        |key: Seq<char>| entries[choose|i: int| is_entry_of(entries, key, i)].1@,
    )
}

/// The state names: from what stands in the brackets of a todo to the state
/// that it means. A key has at most one entry.
#[derive(Debug)]
pub struct AliasTable {
    entries: Vec<(String, String)>,
}

impl View for AliasTable {
    type V = Map<Seq<char>, Seq<char>>;

    closed spec fn view(&self) -> Map<Seq<char>, Seq<char>> {
        map_of(self.entries@)
    }
}

impl AliasTable {
    #[verifier::type_invariant]
    spec fn well_formed(self) -> bool {
        keys_distinct(self.entries@)
    }

    pub fn new() -> (table: AliasTable)
        ensures
            table@ == Map::<Seq<char>, Seq<char>>::empty(),
    {
        let table = AliasTable { entries: Vec::new() };
        assert(table@ =~= Map::<Seq<char>, Seq<char>>::empty());
        table
    }

    /// The number of keys.
    pub fn len(&self) -> (n: usize)
        ensures
            n == self@.dom().len(),
            self@.dom().finite(),
    {
        proof {
            use_type_invariant(self);
            lemma_map_of_len(self.entries@);
        }
        self.entries.len()
    }

    /// Where the entry of `key` stands, if it has one.
    fn position(&self, key: &String) -> (at: Option<usize>)
        ensures
            match at {
                Some(i) => is_entry_of(self.entries@, key@, i as int),
                None => forall|i: int| !is_entry_of(self.entries@, key@, i),
            },
    {
        let mut at: usize = 0;
        while at < self.entries.len()
            invariant
                at <= self.entries.len(),
                forall|i: int| 0 <= i < at ==> !is_entry_of(self.entries@, key@, i),
            decreases self.entries.len() - at,
        {
            if self.entries[at].0 == *key {
                return Some(at);
            }
            at += 1;
        }
        None
    }

    /// What `key` stands for, if it is a key.
    pub fn get(&self, key: &String) -> (value: Option<&String>)
        ensures
            match value {
                Some(v) => self@.contains_key(key@) && v@ == self@[key@],
                None => !self@.contains_key(key@),
            },
    {
        proof {
            use_type_invariant(self);
        }
        match self.position(key) {
            Some(i) => {
                proof {
                    lemma_map_of_entry(self.entries@, i as int);
                }
                Some(&self.entries[i].1)
            },
            None => None,
        }
    }

    /// Lets `key` stand for `value`, whatever it stood for before.
    pub fn insert(&mut self, key: String, value: String)
        ensures
            final(self)@ == old(self)@.insert(key@, value@),
    {
        proof {
            use_type_invariant(&*self);
        }
        let ghost before = self.entries@;
        let ghost k = key@;
        let ghost v = value@;
        let position = self.position(&key);
        let mut entries: Vec<(String, String)> = Vec::new();
        std::mem::swap(&mut self.entries, &mut entries);
        match position {
            Some(i) => {
                entries.set(i, (key, value));
                proof {
                    let after = entries@;
                    assert(keys_distinct(after)) by {
                        assert forall|a: int, b: int| 0 <= a < b < after.len() implies (
                        #[trigger] after[a]).0@ != (#[trigger] after[b]).0@ by {
                            assert(after[a].0@ == before[a].0@);
                            assert(after[b].0@ == before[b].0@);
                        }
                    }
                    assert forall|key: Seq<char>| #[trigger]
                        map_of(after).contains_key(key) == map_of(before).insert(
                            k,
                            v,
                        ).contains_key(key) by {
                        if map_of(after).contains_key(key) {
                            let j = choose|j: int| is_entry_of(after, key, j);
                            assert(is_entry_of(before, key, j));
                        }
                        if map_of(before).contains_key(key) {
                            let j = choose|j: int| is_entry_of(before, key, j);
                            assert(is_entry_of(after, key, j));
                        }
                        if key == k {
                            assert(is_entry_of(after, key, i as int));
                        }
                    }
                    assert forall|key: Seq<char>| #[trigger]
                        map_of(after).contains_key(key) implies map_of(after)[key] == map_of(
                        before,
                    ).insert(k, v)[key] by {
                        let j = choose|j: int| is_entry_of(after, key, j);
                        lemma_map_of_entry(after, j);
                        if key != k {
                            assert(is_entry_of(before, key, j));
                            lemma_map_of_entry(before, j);
                        } else {
                            lemma_map_of_entry(after, i as int);
                        }
                    }
                    assert(map_of(after) =~= map_of(before).insert(k, v));
                }
            },
            None => {
                entries.push((key, value));
                proof {
                    let after = entries@;
                    let last = after.len() - 1;
                    assert(keys_distinct(after)) by {
                        assert forall|a: int, b: int| 0 <= a < b < after.len() implies (
                        #[trigger] after[a]).0@ != (#[trigger] after[b]).0@ by {
                            assert(after[a] == before[a]);
                            if b < last {
                                assert(after[b] == before[b]);
                            } else {
                                assert(!is_entry_of(before, k, a));
                            }
                        }
                    }
                    assert forall|key: Seq<char>| #[trigger]
                        map_of(after).contains_key(key) == map_of(before).insert(
                            k,
                            v,
                        ).contains_key(key) by {
                        if map_of(after).contains_key(key) {
                            let j = choose|j: int| is_entry_of(after, key, j);
                            if j < last {
                                assert(is_entry_of(before, key, j));
                            }
                        }
                        if map_of(before).contains_key(key) {
                            let j = choose|j: int| is_entry_of(before, key, j);
                            assert(is_entry_of(after, key, j));
                        }
                        if key == k {
                            assert(is_entry_of(after, key, last));
                        }
                    }
                    assert forall|key: Seq<char>| #[trigger]
                        map_of(after).contains_key(key) implies map_of(after)[key] == map_of(
                        before,
                    ).insert(k, v)[key] by {
                        let j = choose|j: int| is_entry_of(after, key, j);
                        lemma_map_of_entry(after, j);
                        if key != k {
                            assert(is_entry_of(before, key, j));
                            lemma_map_of_entry(before, j);
                        } else {
                            assert(is_entry_of(after, key, last));
                            lemma_map_of_entry(after, last);
                        }
                    }
                    assert(map_of(after) =~= map_of(before).insert(k, v));
                }
            },
        }
        std::mem::swap(&mut self.entries, &mut entries);
    }
}

/// With distinct keys, a key stands for what its entry holds.
proof fn lemma_map_of_entry(entries: Seq<(String, String)>, i: int)
    requires
        keys_distinct(entries),
        0 <= i < entries.len(),
    ensures
        map_of(entries).contains_key(entries[i].0@),
        map_of(entries)[entries[i].0@] == entries[i].1@,
{
    let key = entries[i].0@;
    assert(is_entry_of(entries, key, i));
    let j = choose|j: int| is_entry_of(entries, key, j);
    if j < i {
        assert(entries[j].0@ != entries[i].0@);
    } else if i < j {
        assert(entries[i].0@ != entries[j].0@);
    }
}

/// With distinct keys, there are as many keys as entries.
proof fn lemma_map_of_len(entries: Seq<(String, String)>)
    requires
        keys_distinct(entries),
    ensures
        map_of(entries).dom().finite(),
        map_of(entries).dom().len() == entries.len(),
    decreases entries.len(),
{
    if entries.len() == 0 {
        assert(map_of(entries).dom() =~= Set::<Seq<char>>::empty());
    } else {
        let front = entries.drop_last();
        let last = entries.len() - 1;
        let key = entries[last].0@;
        assert forall|i: int, j: int| 0 <= i < j < front.len() implies (#[trigger] front[i]).0@ != (
        #[trigger] front[j]).0@ by {
            assert(front[i] == entries[i]);
            assert(front[j] == entries[j]);
        }
        lemma_map_of_len(front);
        assert(!map_of(front).dom().contains(key)) by {
            if map_of(front).dom().contains(key) {
                let j = choose|j: int| is_entry_of(front, key, j);
                assert(front[j] == entries[j]);
                assert(entries[j].0@ != entries[last].0@);
            }
        }
        assert(map_of(entries).dom() =~= map_of(front).dom().insert(key)) by {
            assert forall|k: Seq<char>|
                map_of(entries).dom().contains(k) == map_of(front).dom().insert(key).contains(
                    k,
                ) by {
                if map_of(entries).dom().contains(k) {
                    let j = choose|j: int| is_entry_of(entries, k, j);
                    if j < last {
                        assert(is_entry_of(front, k, j));
                    }
                }
                if map_of(front).dom().contains(k) {
                    let j = choose|j: int| is_entry_of(front, k, j);
                    assert(is_entry_of(entries, k, j));
                }
                if k == key {
                    assert(is_entry_of(entries, k, last));
                }
            }
        }
    }
}

/// The configuration.
#[derive(Debug)]
pub struct Config {
    /// The file that a new dated document starts from.
    pub template: Option<String>,
    /// Where the documents are kept.
    pub directory: String,
    /// The editor to open documents with.
    pub editor: Option<String>,
    /// What is written before a bullet's text.
    pub bullet_point: Option<String>,
    pub todo_state_ops: Option<TodoStateOps>,
    /// The state names.
    pub todo_state: AliasTable,
    /// The names of the link handlers that exist.
    pub link_handlers: Vec<String>,
}

/// The model of the configuration.
pub struct ConfigModel {
    pub template: Option<Seq<char>>,
    pub directory: Seq<char>,
    pub editor: Option<Seq<char>>,
    pub bullet_point: Option<Seq<char>>,
    pub todo_state_ops: Option<StateOps>,
    pub todo_state: Map<Seq<char>, Seq<char>>,
    pub link_handlers: Seq<Seq<char>>,
}

/// The views of optional text.
pub open spec fn text_of(text: Option<String>) -> Option<Seq<char>> {
    match text {
        Some(t) => Some(t@),
        None => None,
    }
}

impl View for Config {
    type V = ConfigModel;

    open spec fn view(&self) -> ConfigModel {
        ConfigModel {
            template: text_of(self.template),
            directory: self.directory@,
            editor: text_of(self.editor),
            bullet_point: text_of(self.bullet_point),
            todo_state_ops: match self.todo_state_ops {
                Some(ops) => Some(ops@),
                None => None,
            },
            todo_state: self.todo_state@,
            link_handlers: Seq::new(self.link_handlers@.len(), |i: int| self.link_handlers@[i]@),
        }
    }
}

impl ConfigModel {
    /// Whether the state of a todo stands in brackets: it does unless the
    /// configuration says otherwise.
    pub open spec fn brackets(self) -> bool {
        match self.todo_state_ops {
            Some(ops) => ops.brackets,
            None => true,
        }
    }

    /// What is written for a todo without a state: one space unless the
    /// configuration says otherwise.
    pub open spec fn default_state(self) -> Seq<char> {
        match self.todo_state_ops {
            Some(ops) => ops.default,
            None => seq![' '],
        }
    }

    /// What is written before a bullet's text: `-` unless the configuration
    /// says otherwise.
    pub open spec fn bullet(self) -> Seq<char> {
        match self.bullet_point {
            Some(point) => point,
            None => seq!['-'],
        }
    }

    /// The state that `raw` means, if it is a state name.
    pub open spec fn alias(self, raw: Seq<char>) -> Option<Seq<char>> {
        if self.todo_state.contains_key(raw) {
            Some(self.todo_state[raw])
        } else {
            None
        }
    }

    /// Whether a link handler of this name exists.
    pub open spec fn knows_handler(self, name: Seq<char>) -> bool {
        self.link_handlers.contains(name)
    }
}

impl Config {
    /// A configuration that keeps its documents in `directory` and leaves
    /// everything else as it is by default.
    pub fn new(directory: String) -> (config: Config)
        ensures
            config@ == (ConfigModel {
                template: None,
                directory: directory@,
                editor: None,
                bullet_point: None,
                todo_state_ops: None,
                todo_state: Map::empty(),
                link_handlers: Seq::empty(),
            }),
    {
        let config = Config {
            template: None,
            directory,
            editor: None,
            bullet_point: None,
            todo_state_ops: None,
            todo_state: AliasTable::new(),
            link_handlers: Vec::new(),
        };
        assert(config@.link_handlers =~= Seq::<Seq<char>>::empty());
        config
    }

    pub fn brackets(&self) -> (b: bool)
        ensures
            b == self@.brackets(),
    {
        match &self.todo_state_ops {
            Some(ops) => ops.brackets,
            None => true,
        }
    }

    pub fn knows_handler(&self, name: &String) -> (known: bool)
        ensures
            known == self@.knows_handler(name@),
    {
        let mut at: usize = 0;
        while at < self.link_handlers.len()
            invariant
                at <= self.link_handlers.len(),
                forall|i: int| 0 <= i < at ==> self.link_handlers@[i]@ != name@,
            decreases self.link_handlers.len() - at,
        {
            if self.link_handlers[at] == *name {
                assert(self@.link_handlers[at as int] == name@);
                return true;
            }
            at += 1;
        }
        assert(!self@.link_handlers.contains(name@)) by {
            if self@.link_handlers.contains(name@) {
                let i = choose|i: int|
                    0 <= i < self@.link_handlers.len() && self@.link_handlers[i] == name@;
                assert(self.link_handlers@[i]@ != name@);
            }
        }
        false
    }
}

} // verus!
