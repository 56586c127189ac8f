//! Key bindings of combat actions. Movement and reserved keys are not bindable.

use crate::gamedata::ids::ActionId;
use crate::text::{law_text_order, owned, str_before, str_eq, text_before};
use vstd::prelude::*;

verus! {

/// An attempt to bind a key that is reserved.
#[derive(Clone, Copy, Debug, PartialEq, Eq, Structural)]
pub struct ReservedKey;

/// The names of the reserved keys.
pub fn reserved_names() -> (r: [&'static str; 3])
    ensures
        r@ == seq!["Escape", "E", "Q"],
{
    let r: [&'static str; 3] = ["Escape", "E", "Q"];
    assert(r@ =~= seq!["Escape", "E", "Q"]);
    r
}

/// The keys no action may be bound to.
pub open spec fn reserved(key: Seq<char>) -> bool {
    key == "E"@ || key == "Q"@
}

pub fn is_reserved(key: &str) -> (r: bool)
    ensures
        r == reserved(key@),
{
    str_eq(key, "E") || str_eq(key, "Q")
}

/// The names of a list of actions.
pub open spec fn names_of(ids: Seq<ActionId>) -> Seq<Seq<char>> {
    Seq::new(ids.len(), |i: int| ids[i]@)
}

/// The actions pressed in a frame, in the order of the roster.
#[derive(Clone, Debug)]
pub struct PressedActions {
    actions: Vec<ActionId>,
}

impl PressedActions {
    pub closed spec fn view(&self) -> Seq<Seq<char>> {
        names_of(self.actions@)
    }

    /// No action.
    pub fn none() -> (r: Self)
        ensures
            r@.len() == 0,
    {
        PressedActions { actions: Vec::new() }
    }

    pub fn from_actions(actions: &[ActionId]) -> (r: Self)
        ensures
            r@ == names_of(actions@),
    {
        let mut out: Vec<ActionId> = Vec::new();
        let mut i: usize = 0;
        while i < actions.len()
            invariant
                i <= actions@.len(),
                out@.len() == i,
                forall|j: int| 0 <= j < i ==> (#[trigger] out@[j])@ == actions@[j]@,
            decreases actions@.len() - i,
        {
            out.push(ActionId::new(actions[i].as_str()));
            i += 1;
        }
        let r = PressedActions { actions: out };
        assert(r@ =~= names_of(actions@));
        r
    }

    pub fn is_empty(&self) -> (r: bool)
        ensures
            r == (self@.len() == 0),
    {
        self.actions.len() == 0
    }

    /// The actions in order.
    pub fn iter(&self) -> (r: &[ActionId])
        ensures
            names_of(r@) == self@,
    {
        self.actions.as_slice()
    }
}

/// What an action is bound to.
#[derive(Clone, Debug)]
pub struct Bind {
    pub action: String,
    pub key: Option<String>,
}

/// The characters of a bound key.
pub open spec fn key_text(key: Option<String>) -> Option<Seq<char>> {
    match key {
        Some(name) => Some(name@),
        None => None,
    }
}

/// Actions and the keys they are bound to, in the order of the action names.
#[derive(Clone, Debug)]
pub struct KeyBinds {
    pub binds: Vec<Bind>,
}

/// What the first `n` binds say.
pub open spec fn map_of(binds: Seq<Bind>, n: nat) -> Map<Seq<char>, Option<Seq<char>>>
    decreases n,
{
    if n == 0 {
        Map::empty()
    } else {
        map_of(binds, (n - 1) as nat).insert(binds[n - 1].action@, key_text(binds[n - 1].key))
    }
}

pub open spec fn ordered(binds: Seq<Bind>) -> bool {
    forall|i: int, j: int|
        0 <= i < j < binds.len() ==> text_before(
            (#[trigger] binds[i]).action@,
            (#[trigger] binds[j]).action@,
        )
}

proof fn lemma_map_of(binds: Seq<Bind>, n: nat)
    requires
        n <= binds.len(),
        ordered(binds),
    ensures
        forall|i: int|
            0 <= i < n ==> map_of(binds, n).contains_key((#[trigger] binds[i]).action@) && map_of(
                binds,
                n,
            )[binds[i].action@] == key_text(binds[i].key),
        forall|id: Seq<char>| #[trigger]
            map_of(binds, n).contains_key(id) ==> exists|i: int|
                0 <= i < n && (#[trigger] binds[i]).action@ == id,
    decreases n,
{
    if n > 0 {
        lemma_map_of(binds, (n - 1) as nat);
        let last = binds[n - 1].action@;
        assert forall|i: int| 0 <= i < n implies map_of(binds, n).contains_key(
            (#[trigger] binds[i]).action@,
        ) && map_of(binds, n)[binds[i].action@] == key_text(binds[i].key) by {
            if i < n - 1 {
                law_text_order(binds[i].action@, last, last);
                assert(text_before(binds[i].action@, binds[n - 1].action@));
            }
        }
        assert forall|id: Seq<char>| #[trigger] map_of(binds, n).contains_key(id) implies exists|
            i: int,
        | 0 <= i < n && (#[trigger] binds[i]).action@ == id by {
            if id == last {
                assert(binds[n - 1].action@ == id);
            } else {
                assert(map_of(binds, (n - 1) as nat).contains_key(id));
            }
        }
    }
}

/// Two ordered lists that say the same of every action make the same map.
proof fn lemma_same_map(
    binds: Seq<Bind>,
    want: Map<Seq<char>, Option<Seq<char>>>,
)
    requires
        ordered(binds),
        forall|i: int|
            0 <= i < binds.len() ==> want.contains_key((#[trigger] binds[i]).action@)
                && want[binds[i].action@] == key_text(binds[i].key),
        forall|id: Seq<char>| #[trigger]
            want.contains_key(id) ==> exists|i: int|
                0 <= i < binds.len() && (#[trigger] binds[i]).action@ == id,
    ensures
        map_of(binds, binds.len()) == want,
{
    lemma_map_of(binds, binds.len());
    let m = map_of(binds, binds.len());
    assert forall|id: Seq<char>| m.contains_key(id) == want.contains_key(id) by {
        if m.contains_key(id) {
            let i = choose|i: int| 0 <= i < binds.len() && (#[trigger] binds[i]).action@ == id;
            assert(want.contains_key(binds[i].action@));
        }
        if want.contains_key(id) {
            let i = choose|i: int| 0 <= i < binds.len() && (#[trigger] binds[i]).action@ == id;
            assert(m.contains_key(binds[i].action@));
        }
    }
    assert forall|id: Seq<char>| m.contains_key(id) implies m[id] == want[id] by {
        let i = choose|i: int| 0 <= i < binds.len() && (#[trigger] binds[i]).action@ == id;
        assert(m[binds[i].action@] == want[binds[i].action@]);
    }
    assert(m =~= want);
}

/// The name of the key that the `index`-th action of a roster is bound to at first.
pub open spec fn default_key(index: int) -> Option<Seq<char>> {
    if index == 0 {
        Some("1"@)
    } else if index == 1 {
        Some("2"@)
    } else if index == 2 {
        Some("3"@)
    } else if index == 3 {
        Some("4"@)
    } else if index == 4 {
        Some("5"@)
    } else if index == 5 {
        Some("6"@)
    } else if index == 6 {
        Some("7"@)
    } else if index == 7 {
        Some("8"@)
    } else {
        None
    }
}

pub fn default_action_key(index: usize) -> (r: Option<&'static str>)
    ensures
        match r {
            Some(k) => default_key(index as int) == Some(k@),
            None => default_key(index as int) is None,
        },
{
    match index {
        0 => Some("1"),
        1 => Some("2"),
        2 => Some("3"),
        3 => Some("4"),
        4 => Some("5"),
        5 => Some("6"),
        6 => Some("7"),
        7 => Some("8"),
        _ => None,
    }
}

/// The binds after the first `n` actions of a roster took their first keys.
pub open spec fn default_map(roster: Seq<Seq<char>>, n: nat) -> Map<Seq<char>, Option<Seq<char>>>
    decreases n,
{
    if n == 0 {
        Map::empty()
    } else {
        default_map(roster, (n - 1) as nat).insert(roster[n - 1], default_key(n - 1))
    }
}

/// The binds after the first `n` actions of a roster took their first keys where they
/// had no bind.
pub open spec fn filled(
    map: Map<Seq<char>, Option<Seq<char>>>,
    roster: Seq<Seq<char>>,
    n: nat,
) -> Map<Seq<char>, Option<Seq<char>>>
    decreases n,
{
    if n == 0 {
        map
    } else {
        let m = filled(map, roster, (n - 1) as nat);
        if m.contains_key(roster[n - 1]) {
            m
        } else {
            m.insert(roster[n - 1], default_key(n - 1))
        }
    }
}

/// What a set of binds is refused for. Binds are named by their place.
#[derive(Clone, Copy, Debug, PartialEq, Eq, Structural)]
pub enum BindFault {
    TooManyActions,
    UnknownAction { at: usize },
    UnknownKey { at: usize },
    ReservedKey { at: usize },
    SharedKey { at: usize },
}

/// Whether a list of names holds a name.
pub open spec fn listed(names: Seq<Seq<char>>, name: Seq<char>) -> bool {
    exists|i: int| 0 <= i < names.len() && #[trigger] names[i] == name
}

/// The first bind from `from` on that names an action outside the roster, a key that
/// is not there, or a reserved key.
pub open spec fn bind_fault(
    binds: Seq<Bind>,
    roster: Seq<Seq<char>>,
    known: Seq<Seq<char>>,
    from: int,
) -> Option<BindFault>
    decreases binds.len() - from,
{
    if from < 0 || from >= binds.len() {
        None
    } else if !listed(roster, binds[from].action@) {
        Some(BindFault::UnknownAction { at: from as usize })
    } else {
        match key_text(binds[from].key) {
            Some(name) => if !listed(known, name) {
                Some(BindFault::UnknownKey { at: from as usize })
            } else if reserved(name) {
                Some(BindFault::ReservedKey { at: from as usize })
            } else {
                bind_fault(binds, roster, known, from + 1)
            },
            None => bind_fault(binds, roster, known, from + 1),
        }
    }
}

/// Whether an earlier bind than `i` has the same key.
pub open spec fn key_taken(binds: Seq<Bind>, i: int) -> bool {
    binds[i].key is Some && exists|j: int|
        0 <= j < i && key_text((#[trigger] binds[j]).key) == key_text(binds[i].key)
}

/// The first bind from `from` on whose key an earlier one has.
pub open spec fn shared_fault(binds: Seq<Bind>, from: int) -> Option<BindFault>
    decreases binds.len() - from,
{
    if from < 0 || from >= binds.len() {
        None
    } else if key_taken(binds, from) {
        Some(BindFault::SharedKey { at: from as usize })
    } else {
        shared_fault(binds, from + 1)
    }
}

/// The characters of each string.
pub open spec fn texts(names: Seq<&str>) -> Seq<Seq<char>> {
    Seq::new(names.len(), |i: int| names[i]@)
}

fn is_listed(names: &[&str], name: &str) -> (r: bool)
    ensures
        r == listed(texts(names@), name@),
{
    let ghost all = texts(names@);
    let mut i: usize = 0;
    while i < names.len()
        invariant
            i <= names@.len(),
            all == texts(names@),
            forall|j: int| 0 <= j < i ==> #[trigger] all[j] != name@,
        decreases names@.len() - i,
    {
        if str_eq(names[i], name) {
            assert(all[i as int] == name@);
            return true;
        }
        i += 1;
    }
    false
}

fn in_roster(roster: &[ActionId], name: &str) -> (r: bool)
    ensures
        r == listed(names_of(roster@), name@),
{
    let ghost all = names_of(roster@);
    let mut i: usize = 0;
    while i < roster.len()
        invariant
            i <= roster@.len(),
            all == names_of(roster@),
            forall|j: int| 0 <= j < i ==> #[trigger] all[j] != name@,
        decreases roster@.len() - i,
    {
        if str_eq(roster[i].as_str(), name) {
            assert(all[i as int] == name@);
            return true;
        }
        i += 1;
    }
    false
}

impl KeyBinds {
    /// Each action once, in the order of the names.
    pub open spec fn wf(&self) -> bool {
        ordered(self.binds@)
    }

    /// What each action is bound to.
    pub open spec fn view(&self) -> Map<Seq<char>, Option<Seq<char>>> {
        map_of(self.binds@, self.binds@.len())
    }

    pub fn new() -> (r: Self)
        ensures
            r.wf(),
            r@ == Map::<Seq<char>, Option<Seq<char>>>::empty(),
    {
        KeyBinds { binds: Vec::new() }
    }

    /// The place of an action: where it is, or where it would come.
    fn seek(&self, action: &str) -> (r: (usize, bool))
        requires
            self.wf(),
        ensures
            r.0 <= self.binds@.len(),
            r.1 == self@.contains_key(action@),
            r.1 ==> r.0 < self.binds@.len() && self.binds@[r.0 as int].action@ == action@,
            forall|i: int|
                0 <= i < r.0 ==> text_before((#[trigger] self.binds@[i]).action@, action@),
            !r.1 ==> forall|i: int|
                r.0 <= i < self.binds@.len() ==> text_before(
                    action@,
                    (#[trigger] self.binds@[i]).action@,
                ),
    {
        proof {
            lemma_map_of(self.binds@, self.binds@.len());
        }
        let mut i: usize = 0;
        while i < self.binds.len() && str_before(self.binds[i].action.as_str(), action)
            invariant
                i <= self.binds@.len(),
                forall|j: int|
                    0 <= j < i ==> text_before((#[trigger] self.binds@[j]).action@, action@),
            decreases self.binds@.len() - i,
        {
            i += 1;
        }
        let here: bool = i < self.binds.len() && str_eq(self.binds[i].action.as_str(), action);
        proof {
            let all = self.binds@;
            if here {
                assert(self@.contains_key(all[i as int].action@));
            } else {
                assert forall|k: int| i <= k < all.len() implies text_before(
                    action@,
                    (#[trigger] all[k]).action@,
                ) by {
                    law_text_order(action@, all[i as int].action@, all[k].action@);
                    if i < k {
                        assert(text_before(all[i as int].action@, all[k].action@));
                    }
                }
                if self@.contains_key(action@) {
                    let k = choose|k: int|
                        0 <= k < all.len() && (#[trigger] all[k]).action@ == action@;
                    law_text_order(action@, action@, action@);
                }
            }
        }
        (i, here)
    }

    /// Binds an action, anew or for the first time.
    fn put(&mut self, action: &str, key: Option<String>)
        requires
            old(self).wf(),
        ensures
            final(self).wf(),
            final(self)@ == old(self)@.insert(action@, key_text(key)),
    {
        let at: (usize, bool) = self.seek(action);
        let ghost was = self.binds@;
        let ghost want = self@.insert(action@, key_text(key));
        let ghost text = key_text(key);
        proof {
            lemma_map_of(was, was.len());
        }
        let bind: Bind = Bind { action: owned(action), key };
        let ghost b = bind;
        if at.1 {
            self.binds.set(at.0, bind);
            proof {
                let now = self.binds@;
                assert(now =~= was.update(at.0 as int, b));
                assert forall|i: int, j: int| 0 <= i < j < now.len() implies text_before(
                    (#[trigger] now[i]).action@,
                    (#[trigger] now[j]).action@,
                ) by {
                    assert(now[i].action@ == was[i].action@);
                    assert(now[j].action@ == was[j].action@);
                }
                assert forall|i: int| 0 <= i < now.len() implies want.contains_key(
                    (#[trigger] now[i]).action@,
                ) && want[now[i].action@] == key_text(now[i].key) by {
                    if i != at.0 {
                        assert(now[i] == was[i]);
                        law_text_order(was[i].action@, action@, action@);
                        if i < at.0 {
                        } else {
                            assert(text_before(was[at.0 as int].action@, was[i].action@));
                        }
                    }
                }
                assert forall|id: Seq<char>| #[trigger] want.contains_key(id) implies exists|
                    i: int,
                | 0 <= i < now.len() && (#[trigger] now[i]).action@ == id by {
                    if id == action@ {
                        assert(now[at.0 as int].action@ == id);
                    } else {
                        let i = choose|i: int|
                            0 <= i < was.len() && (#[trigger] was[i]).action@ == id;
                        assert(now[i].action@ == id);
                    }
                }
                lemma_same_map(now, want);
            }
        } else {
            self.binds.insert(at.0, bind);
            proof {
                let now = self.binds@;
                let p = at.0 as int;
                assert(now =~= was.insert(p, b));
                assert forall|i: int, j: int| 0 <= i < j < now.len() implies text_before(
                    (#[trigger] now[i]).action@,
                    (#[trigger] now[j]).action@,
                ) by {
                    if i < p {
                        assert(now[i] == was[i]);
                        if j < p {
                            assert(now[j] == was[j]);
                        } else if j > p {
                            assert(now[j] == was[j - 1]);
                        }
                    } else if i > p {
                        assert(now[i] == was[i - 1]);
                        assert(now[j] == was[j - 1]);
                    } else {
                        assert(now[j] == was[j - 1]);
                    }
                }
                assert forall|i: int| 0 <= i < now.len() implies want.contains_key(
                    (#[trigger] now[i]).action@,
                ) && want[now[i].action@] == key_text(now[i].key) by {
                    if i < p {
                        assert(now[i] == was[i]);
                    } else if i > p {
                        assert(now[i] == was[i - 1]);
                    }
                }
                assert forall|id: Seq<char>| #[trigger] want.contains_key(id) implies exists|
                    i: int,
                | 0 <= i < now.len() && (#[trigger] now[i]).action@ == id by {
                    if id == action@ {
                        assert(now[p].action@ == id);
                    } else {
                        let i = choose|i: int|
                            0 <= i < was.len() && (#[trigger] was[i]).action@ == id;
                        if i < p {
                            assert(now[i].action@ == id);
                        } else {
                            assert(now[i + 1].action@ == id);
                        }
                    }
                }
                lemma_same_map(now, want);
            }
        }
    }

    /// The first binds of a roster: the digit keys in turn. Nothing where the roster
    /// has more actions than there are digit keys.
    pub fn for_default_profile(roster: &[ActionId]) -> (r: Option<KeyBinds>)
        ensures
            (r is Some) == (roster@.len() <= 8),
            r is Some ==> r->0.wf() && r->0@ == default_map(names_of(roster@), roster@.len()),
    {
        if roster.len() > 8 {
            return None;
        }
        let mut out: KeyBinds = KeyBinds::new();
        let mut i: usize = 0;
        while i < roster.len()
            invariant
                i <= roster@.len() <= 8,
                out.wf(),
                out@ == default_map(names_of(roster@), i as nat),
            decreases roster@.len() - i,
        {
            let key: Option<String> = match default_action_key(i) {
                Some(k) => Some(owned(k)),
                None => None,
            };
            out.put(roster[i].as_str(), key);
            i += 1;
        }
        Some(out)
    }

    fn check_binds(&self, roster: &[ActionId], known: &[&str]) -> (r: Option<BindFault>)
        ensures
            r == bind_fault(self.binds@, names_of(roster@), texts(known@), 0),
    {
        let mut i: usize = 0;
        while i < self.binds.len()
            invariant
                i <= self.binds@.len(),
                bind_fault(self.binds@, names_of(roster@), texts(known@), 0) == bind_fault(
                    self.binds@,
                    names_of(roster@),
                    texts(known@),
                    i as int,
                ),
            decreases self.binds@.len() - i,
        {
            let b: &Bind = &self.binds[i];
            if !in_roster(roster, b.action.as_str()) {
                return Some(BindFault::UnknownAction { at: i });
            }
            match &b.key {
                Some(name) => {
                    if !is_listed(known, name.as_str()) {
                        return Some(BindFault::UnknownKey { at: i });
                    }
                    if is_reserved(name.as_str()) {
                        return Some(BindFault::ReservedKey { at: i });
                    }
                },
                None => {},
            }
            i += 1;
        }
        None
    }

    fn check_shared(&self) -> (r: Option<BindFault>)
        ensures
            r == shared_fault(self.binds@, 0),
    {
        let mut i: usize = 0;
        while i < self.binds.len()
            invariant
                i <= self.binds@.len(),
                shared_fault(self.binds@, 0) == shared_fault(self.binds@, i as int),
            decreases self.binds@.len() - i,
        {
            match &self.binds[i].key {
                Some(name) => {
                    let mut j: usize = 0;
                    while j < i
                        invariant
                            j <= i < self.binds@.len(),
                            key_text(self.binds@[i as int].key) == Some(name@),
                            shared_fault(self.binds@, 0) == shared_fault(self.binds@, i as int),
                            forall|k: int|
                                0 <= k < j ==> key_text((#[trigger] self.binds@[k]).key) != Some(
                                    name@,
                                ),
                        decreases i - j,
                    {
                        match &self.binds[j].key {
                            Some(other) => {
                                if str_eq(other.as_str(), name.as_str()) {
                                    assert(key_text(self.binds@[j as int].key) == key_text(
                                        self.binds@[i as int].key,
                                    ));
                                    return Some(BindFault::SharedKey { at: i });
                                }
                            },
                            None => {},
                        }
                        j += 1;
                    }
                },
                None => {},
            }
            i += 1;
        }
        None
    }

    /// Fills an empty set of binds from the roster, refuses a bind that names what is
    /// not there, adds the actions that have none, and refuses two actions on one key.
    /// `known` are the names of the keys there are.
    pub fn validate_for_default_profile(&mut self, roster: &[ActionId], known: &[&str]) -> (r:
        Result<(), BindFault>)
        requires
            old(self).wf(),
        ensures
            final(self).wf(),
            old(self).binds@.len() == 0 && roster@.len() > 8 ==> r == Err::<(), BindFault>(
                BindFault::TooManyActions,
            ) && final(self)@ == old(self)@,
            old(self).binds@.len() == 0 && roster@.len() <= 8 ==> exists|k: KeyBinds|
                {
                    &&& #[trigger] k.wf()
                    &&& k@ == default_map(names_of(roster@), roster@.len())
                    &&& validated(k, *final(self), roster@, known@, r)
                },
            old(self).binds@.len() > 0 ==> validated(
                *old(self),
                *final(self),
                roster@,
                known@,
                r,
            ),
    {
        if self.binds.len() == 0 {
            match KeyBinds::for_default_profile(roster) {
                None => {
                    return Err(BindFault::TooManyActions);
                },
                Some(fresh) => {
                    *self = fresh;
                },
            }
        }
        let ghost start = *self;
        match self.check_binds(roster, known) {
            Some(f) => {
                assert(validated(start, *self, roster@, known@, Err::<(), BindFault>(f)));
                return Err(f);
            },
            None => {},
        }
        let mut i: usize = 0;
        while i < roster.len()
            invariant
                i <= roster@.len(),
                self.wf(),
                self@ == filled(start@, names_of(roster@), i as nat),
            decreases roster@.len() - i,
        {
            let at: (usize, bool) = self.seek(roster[i].as_str());
            if !at.1 {
                let key: Option<String> = match default_action_key(i) {
                    Some(k) => Some(owned(k)),
                    None => None,
                };
                self.put(roster[i].as_str(), key);
            }
            i += 1;
        }
        match self.check_shared() {
            Some(f) => {
                assert(validated(start, *self, roster@, known@, Err::<(), BindFault>(f)));
                Err(f)
            },
            None => {
                assert(validated(start, *self, roster@, known@, Ok::<(), BindFault>(())));
                Ok(())
            },
        }
    }

    /// What an action is bound to, if anything.
    pub open spec fn bound(&self, action: Seq<char>) -> Option<Seq<char>> {
        if self@.contains_key(action) {
            self@[action]
        } else {
            None
        }
    }

    fn bound_name(&self, action: &str) -> (r: Option<&str>)
        requires
            self.wf(),
        ensures
            match r {
                Some(k) => self.bound(action@) == Some(k@),
                None => self.bound(action@) is None,
            },
    {
        let at: (usize, bool) = self.seek(action);
        proof {
            lemma_map_of(self.binds@, self.binds@.len());
        }
        if !at.1 {
            return None;
        }
        assert(self@[self.binds@[at.0 as int].action@] == key_text(self.binds@[at.0 as int].key));
        match &self.binds[at.0].key {
            Some(name) => Some(name.as_str()),
            None => None,
        }
    }

    /// The key of an action, where it has one that is there and not reserved.
    pub fn get(&self, action: &ActionId, known: &[&str]) -> (r: Option<&str>)
        requires
            self.wf(),
        ensures
            ({
                let key = self.bound(action@);
                if key is Some && listed(texts(known@), key->0) && !reserved(key->0) {
                    r is Some && r->0@ == key->0
                } else {
                    r is None
                }
            }),
    {
        match self.bound_name(action.as_str()) {
            Some(name) => if is_listed(known, name) && !is_reserved(name) {
                Some(name)
            } else {
                None
            },
            None => None,
        }
    }

    /// The key of an action as it is shown; `unbound` where it has none.
    pub fn display(&self, action: &ActionId) -> (r: String)
        requires
            self.wf(),
        ensures
            r@ == match self.bound(action@) {
                Some(key) => if key.len() > 0 {
                    key
                } else {
                    "unbound"@
                },
                None => "unbound"@,
            },
    {
        match self.bound_name(action.as_str()) {
            Some(name) => if name.unicode_len() > 0 {
                owned(name)
            } else {
                owned("unbound")
            },
            None => owned("unbound"),
        }
    }

    /// The first action from `from` on that a key is bound to.
    pub open spec fn holder(&self, key: Seq<char>, from: int) -> Option<Seq<char>>
        decreases self.binds@.len() - from,
    {
        if from < 0 || from >= self.binds@.len() {
            None
        } else if key_text(self.binds@[from].key) == Some(key) {
            Some(self.binds@[from].action@)
        } else {
            self.holder(key, from + 1)
        }
    }

    /// The action a key stands for: none for a reserved key, else the first by name.
    pub open spec fn action_of(&self, key: Seq<char>) -> Option<Seq<char>> {
        if reserved(key) {
            None
        } else {
            self.holder(key, 0)
        }
    }

    pub fn action_for(&self, key: &str) -> (r: Option<ActionId>)
        ensures
            match r {
                Some(a) => self.action_of(key@) == Some(a@),
                None => self.action_of(key@) is None,
            },
    {
        if is_reserved(key) {
            return None;
        }
        let mut i: usize = 0;
        while i < self.binds.len()
            invariant
                i <= self.binds@.len(),
                !reserved(key@),
                self.holder(key@, 0) == self.holder(key@, i as int),
            decreases self.binds@.len() - i,
        {
            match &self.binds[i].key {
                Some(name) => {
                    if str_eq(name.as_str(), key) {
                        return Some(ActionId::new(self.binds[i].action.as_str()));
                    }
                },
                None => {},
            }
            i += 1;
        }
        None
    }

    /// The binds once `key` is taken from whoever has it.
    pub open spec fn freed(map: Map<Seq<char>, Option<Seq<char>>>, key: Seq<char>) -> Map<
        Seq<char>,
        Option<Seq<char>>,
    > {
        map.map_values(
            |k: Option<Seq<char>>|
                if k == Some(key) {
                    None::<Seq<char>>
                } else {
                    k
                },
        )
    }

    fn free(&mut self, key: &str)
        requires
            old(self).wf(),
        ensures
            final(self).wf(),
            final(self)@ == KeyBinds::freed(old(self)@, key@),
    {
        let ghost was = self.binds@;
        let mut i: usize = 0;
        while i < self.binds.len()
            invariant
                i <= self.binds@.len(),
                was.len() == self.binds@.len(),
                forall|j: int|
                    0 <= j < was.len() ==> (#[trigger] self.binds@[j]).action@ == was[j].action@,
                forall|j: int|
                    0 <= j < i ==> key_text((#[trigger] self.binds@[j]).key) == if key_text(
                        was[j].key,
                    ) == Some(key@) {
                        None
                    } else {
                        key_text(was[j].key)
                    },
                forall|j: int| i <= j < was.len() ==> #[trigger] self.binds@[j] == was[j],
            decreases self.binds@.len() - i,
        {
            let taken: bool = match &self.binds[i].key {
                Some(name) => str_eq(name.as_str(), key),
                None => false,
            };
            if taken {
                let action: String = owned(self.binds[i].action.as_str());
                self.binds.set(i, Bind { action, key: None });
            }
            i += 1;
        }
        proof {
            let now = self.binds@;
            let want = KeyBinds::freed(map_of(was, was.len()), key@);
            lemma_map_of(was, was.len());
            assert forall|a: int, b: int| 0 <= a < b < now.len() implies text_before(
                (#[trigger] now[a]).action@,
                (#[trigger] now[b]).action@,
            ) by {
                assert(text_before(was[a].action@, was[b].action@));
            }
            assert forall|j: int| 0 <= j < now.len() implies want.contains_key(
                (#[trigger] now[j]).action@,
            ) && want[now[j].action@] == key_text(now[j].key) by {
                assert(map_of(was, was.len()).contains_key(was[j].action@));
                assert(map_of(was, was.len())[was[j].action@] == key_text(was[j].key));
            }
            assert forall|id: Seq<char>| #[trigger] want.contains_key(id) implies exists|j: int|
                0 <= j < now.len() && (#[trigger] now[j]).action@ == id by {
                assert(map_of(was, was.len()).contains_key(id));
                let j = choose|j: int| 0 <= j < was.len() && (#[trigger] was[j]).action@ == id;
                assert(now[j].action@ == id);
            }
            lemma_same_map(now, want);
        }
    }

    /// Gives an action a key and takes it from whoever had it. A reserved key is
    /// refused and nothing changes.
    pub fn assign(&mut self, action: &ActionId, key: &str) -> (r: Result<(), ReservedKey>)
        requires
            old(self).wf(),
            !reserved(key@) ==> old(self)@.contains_key(action@),
        ensures
            final(self).wf(),
            r is Err == reserved(key@),
            r is Err ==> final(self)@ == old(self)@,
            r is Ok ==> final(self)@ == KeyBinds::freed(old(self)@, key@).insert(
                action@,
                Some(key@),
            ),
    {
        if is_reserved(key) {
            return Err(ReservedKey);
        }
        self.free(key);
        self.put(action.as_str(), Some(owned(key)));
        Ok(())
    }

    /// The actions without a key among the first `n`, in order.
    pub open spec fn unbound_upto(&self, n: nat) -> Seq<Seq<char>>
        decreases n,
    {
        if n == 0 {
            Seq::empty()
        } else {
            let rest = self.unbound_upto((n - 1) as nat);
            if self.binds@[n - 1].key is None {
                rest.push(self.binds@[n - 1].action@)
            } else {
                rest
            }
        }
    }

    /// The actions without a key, in order.
    pub fn missing(&self) -> (r: Vec<ActionId>)
        ensures
            names_of(r@) == self.unbound_upto(self.binds@.len()),
    {
        let mut out: Vec<ActionId> = Vec::new();
        let mut i: usize = 0;
        assert(names_of(out@) =~= self.unbound_upto(0));
        while i < self.binds.len()
            invariant
                i <= self.binds@.len(),
                names_of(out@) == self.unbound_upto(i as nat),
            decreases self.binds@.len() - i,
        {
            let ghost was = out@;
            if self.binds[i].key.is_none() {
                out.push(ActionId::new(self.binds[i].action.as_str()));
                assert(names_of(out@) =~= names_of(was).push(self.binds@[i as int].action@));
            }
            i += 1;
        }
        out
    }
}

/// What validation makes of the binds it starts with.
pub open spec fn validated(
    start: KeyBinds,
    end: KeyBinds,
    roster: Seq<ActionId>,
    known: Seq<&str>,
    r: Result<(), BindFault>,
) -> bool {
    match bind_fault(start.binds@, names_of(roster), texts(known), 0) {
        Some(f) => r == Err::<(), BindFault>(f) && end == start,
        None => {
            &&& end@ == filled(start@, names_of(roster), roster.len())
            &&& match shared_fault(end.binds@, 0) {
                Some(f) => r == Err::<(), BindFault>(f),
                None => r == Ok::<(), BindFault>(()),
            }
        },
    }
}

pub fn assign(binds: &mut KeyBinds, action: &ActionId, key: &str) -> (r: Result<(), ReservedKey>)
    requires
        old(binds).wf(),
        !reserved(key@) ==> old(binds)@.contains_key(action@),
    ensures
        final(binds).wf(),
        r is Err == reserved(key@),
        r is Err ==> final(binds)@ == old(binds)@,
        r is Ok ==> final(binds)@ == KeyBinds::freed(old(binds)@, key@).insert(
            action@,
            Some(key@),
        ),
{
    binds.assign(action, key)
}

pub fn missing_binds(binds: &KeyBinds) -> (r: Vec<ActionId>)
    ensures
        names_of(r@) == binds.unbound_upto(binds.binds@.len()),
{
    binds.missing()
}

/// The actions that the first `n` keys stand for, each once, in the order they come.
pub open spec fn resolved(binds: KeyBinds, keys: Seq<&str>, n: nat) -> Seq<Seq<char>>
    decreases n,
{
    if n == 0 {
        Seq::empty()
    } else {
        let rest = resolved(binds, keys, (n - 1) as nat);
        match binds.action_of(keys[n - 1]@) {
            Some(a) => if listed(rest, a) {
                rest
            } else {
                rest.push(a)
            },
            None => rest,
        }
    }
}

/// The actions that keys stand for, each once, in the order they come.
pub fn resolve(binds: &KeyBinds, keys: &[&str]) -> (r: Vec<ActionId>)
    ensures
        names_of(r@) == resolved(*binds, keys@, keys@.len()),
{
    let mut out: Vec<ActionId> = Vec::new();
    let mut i: usize = 0;
    assert(names_of(out@) =~= resolved(*binds, keys@, 0));
    while i < keys.len()
        invariant
            i <= keys@.len(),
            names_of(out@) == resolved(*binds, keys@, i as nat),
        decreases keys@.len() - i,
    {
        match binds.action_for(keys[i]) {
            Some(a) => {
                if !in_roster(out.as_slice(), a.as_str()) {
                    let ghost was = out@;
                    out.push(a);
                    assert(names_of(out@) =~= names_of(was).push(a@));
                }
            },
            None => {},
        }
        i += 1;
    }
    out
}

/// Whether the key of an action is there, not reserved and pressed.
pub open spec fn is_pressed(
    binds: KeyBinds,
    action: Seq<char>,
    known: Seq<&str>,
    pressed: Seq<&str>,
) -> bool {
    let key = binds.bound(action);
    key is Some && listed(texts(known), key->0) && !reserved(key->0) && listed(
        texts(pressed),
        key->0,
    )
}

/// The pressed actions among the first `n` of a roster, in its order.
pub open spec fn pressed_upto(
    binds: KeyBinds,
    roster: Seq<ActionId>,
    known: Seq<&str>,
    pressed: Seq<&str>,
    n: nat,
) -> Seq<Seq<char>>
    decreases n,
{
    if n == 0 {
        Seq::empty()
    } else {
        let rest = pressed_upto(binds, roster, known, pressed, (n - 1) as nat);
        if is_pressed(binds, roster[n - 1]@, known, pressed) {
            rest.push(roster[n - 1]@)
        } else {
            rest
        }
    }
}

/// The actions of a roster whose key is pressed, in the order of the roster.
pub fn resolve_pressed(
    binds: &KeyBinds,
    roster: &[ActionId],
    known: &[&str],
    pressed: &[&str],
) -> (r: PressedActions)
    requires
        binds.wf(),
    ensures
        r@ == pressed_upto(*binds, roster@, known@, pressed@, roster@.len()),
{
    let mut out: Vec<ActionId> = Vec::new();
    let mut i: usize = 0;
    assert(names_of(out@) =~= pressed_upto(*binds, roster@, known@, pressed@, 0));
    while i < roster.len()
        invariant
            i <= roster@.len(),
            binds.wf(),
            names_of(out@) == pressed_upto(*binds, roster@, known@, pressed@, i as nat),
        decreases roster@.len() - i,
    {
        let down: bool = match binds.get(&roster[i], known) {
            Some(name) => is_listed(pressed, name),
            None => false,
        };
        if down {
            let ghost was = out@;
            out.push(ActionId::new(roster[i].as_str()));
            assert(names_of(out@) =~= names_of(was).push(roster@[i as int]@));
        }
        i += 1;
    }
    PressedActions { actions: out }
}

/// Whether no two actions share a key.
pub open spec fn keys_apart(map: Map<Seq<char>, Option<Seq<char>>>) -> bool {
    forall|a: Seq<char>, b: Seq<char>|
        #![trigger map.contains_key(a), map.contains_key(b)]
        map.contains_key(a) && map.contains_key(b) && a != b && map[a] is Some ==> map[a] != map[b]
}

/// Giving an action a key leaves no two actions on one key, and every other action
/// keeps its key unless it was that one.
pub proof fn law_assign_keeps_keys_apart(
    map: Map<Seq<char>, Option<Seq<char>>>,
    action: Seq<char>,
    key: Seq<char>,
    other: Seq<char>,
)
    requires
        keys_apart(map),
        map.contains_key(action),
        map.contains_key(other),
        other != action,
    ensures
        keys_apart(KeyBinds::freed(map, key).insert(action, Some(key))),
        KeyBinds::freed(map, key).insert(action, Some(key))[other] == if map[other] == Some(key) {
            None
        } else {
            map[other]
        },
{
    let end = KeyBinds::freed(map, key).insert(action, Some(key));
    assert forall|a: Seq<char>, b: Seq<char>|
        #![trigger end.contains_key(a), end.contains_key(b)]
        end.contains_key(a) && end.contains_key(b) && a != b && end[a] is Some implies end[a]
        != end[b] by {
        if a != action {
            assert(map.contains_key(a));
        }
        if b != action {
            assert(map.contains_key(b));
        }
    }
}

proof fn lemma_no_shared(binds: Seq<Bind>, from: int, i: int)
    requires
        shared_fault(binds, from) is None,
        0 <= from <= i < binds.len(),
    ensures
        !key_taken(binds, i),
    decreases i - from,
{
    if from < i {
        lemma_no_shared(binds, from + 1, i);
    }
}

/// Binds that passed validation have no two actions on one key.
pub proof fn law_validated_keys_are_apart(binds: KeyBinds)
    requires
        binds.wf(),
        shared_fault(binds.binds@, 0) is None,
    ensures
        keys_apart(binds@),
{
    let all = binds.binds@;
    let map = binds@;
    lemma_map_of(all, all.len());
    assert forall|a: Seq<char>, b: Seq<char>|
        #![trigger map.contains_key(a), map.contains_key(b)]
        map.contains_key(a) && map.contains_key(b) && a != b && map[a] is Some implies map[a]
        != map[b] by {
        let i = choose|i: int| 0 <= i < all.len() && (#[trigger] all[i]).action@ == a;
        let j = choose|j: int| 0 <= j < all.len() && (#[trigger] all[j]).action@ == b;
        assert(map[all[i].action@] == key_text(all[i].key));
        assert(map[all[j].action@] == key_text(all[j].key));
        lemma_no_shared(all, 0, i);
        lemma_no_shared(all, 0, j);
        if map[a] == map[b] {
            if i < j {
                assert(key_taken(all, j));
            } else {
                assert(key_taken(all, i));
            }
        }
    }
}

/// Binds that pass name actions of the roster and keys that are there, and neither E nor Q.
pub proof fn law_passed_binds_are_sound(
    binds: Seq<Bind>,
    roster: Seq<Seq<char>>,
    known: Seq<Seq<char>>,
    from: int,
    i: int,
)
    requires
        bind_fault(binds, roster, known, from) is None,
        0 <= from <= i < binds.len(),
    ensures
        listed(roster, binds[i].action@),
        key_text(binds[i].key) is Some ==> listed(known, key_text(binds[i].key)->0) && key_text(
            binds[i].key,
        )->0 != "E"@ && key_text(binds[i].key)->0 != "Q"@,
    decreases i - from,
{
    if from < i {
        law_passed_binds_are_sound(binds, roster, known, from + 1, i);
    }
}

/// Filling binds up changes no action that had a bind, with or without a key, and leaves none
/// of the roster without one.
pub proof fn law_filling_keeps_what_was_bound(
    map: Map<Seq<char>, Option<Seq<char>>>,
    roster: Seq<Seq<char>>,
    n: nat,
    action: Seq<char>,
)
    requires
        n <= roster.len(),
    ensures
        map.contains_key(action) ==> filled(map, roster, n).contains_key(action) && filled(
            map,
            roster,
            n,
        )[action] == map[action],
        forall|i: int| 0 <= i < n ==> filled(map, roster, n).contains_key(#[trigger] roster[i]),
    decreases n,
{
    if n > 0 {
        law_filling_keeps_what_was_bound(map, roster, (n - 1) as nat, action);
    }
}

impl KeyBinds {
    /// E and Q stand for no action. Any other key stands for an action it is bound to, and for
    /// none only where it is bound to none.
    pub proof fn law_keys_stand_for_their_actions(&self, key: Seq<char>, from: int)
        requires
            0 <= from <= self.binds@.len(),
        ensures
            key == "E"@ || key == "Q"@ ==> self.action_of(key) is None,
            match self.holder(key, from) {
                Some(a) => exists|i: int|
                    from <= i < self.binds@.len() && (#[trigger] self.binds@[i]).action@ == a
                        && key_text(self.binds@[i].key) == Some(key),
                None => forall|i: int|
                    from <= i < self.binds@.len() ==> key_text((#[trigger] self.binds@[i]).key)
                        != Some(key),
            },
        decreases self.binds@.len() - from,
    {
        if from < self.binds@.len() {
            if key_text(self.binds@[from].key) == Some(key) {
                assert(self.binds@[from].action@ == self.holder(key, from)->0);
            } else {
                self.law_keys_stand_for_their_actions(key, from + 1);
                if self.holder(key, from) is Some {
                    let a = self.holder(key, from)->0;
                    let i = choose|i: int|
                        from + 1 <= i < self.binds@.len() && (#[trigger] self.binds@[i]).action@
                            == a && key_text(self.binds@[i].key) == Some(key);
                    assert(self.binds@[i].action@ == a);
                }
            }
        }
    }

    /// One of the first `n` binds names an action and no key.
    pub open spec fn lacks_key(&self, action: Seq<char>, n: nat) -> bool {
        exists|j: int|
            0 <= j < n && (#[trigger] self.binds@[j]).key is None && self.binds@[j].action@
                == action
    }

    /// What is missing a key is listed, and nothing else.
    pub proof fn law_missing_actions_have_no_key(&self, n: nat, action: Seq<char>)
        requires
            n <= self.binds@.len(),
        ensures
            listed(self.unbound_upto(n), action) <==> self.lacks_key(action, n),
        decreases n,
    {
        if n > 0 {
            self.law_missing_actions_have_no_key((n - 1) as nat, action);
            let rest = self.unbound_upto((n - 1) as nat);
            let all = self.unbound_upto(n);
            let last = self.binds@[n - 1];
            if listed(rest, action) {
                let k = choose|k: int| 0 <= k < rest.len() && #[trigger] rest[k] == action;
                assert(all[k] == action);
                let j = choose|j: int|
                    0 <= j < n - 1 && (#[trigger] self.binds@[j]).key is None
                        && self.binds@[j].action@ == action;
                assert(self.binds@[j].key is None);
            }
            if last.key is None && last.action@ == action {
                assert(all[rest.len() as int] == action);
            }
            if listed(all, action) && !listed(rest, action) {
                let k = choose|k: int| 0 <= k < all.len() && #[trigger] all[k] == action;
                if k < rest.len() {
                    assert(rest[k] == action);
                }
                assert(self.binds@[n - 1].key is None);
            }
        }
    }
}

/// Keys give each action once, and only actions that one of the keys stands for.
pub proof fn law_keys_give_each_action_once(binds: KeyBinds, keys: Seq<&str>, n: nat)
    requires
        n <= keys.len(),
    ensures
        resolved(binds, keys, n).no_duplicates(),
        resolved(binds, keys, n).len() <= n,
        forall|i: int|
            0 <= i < n && binds.action_of((#[trigger] keys[i])@) is Some ==> listed(
                resolved(binds, keys, n),
                binds.action_of(keys[i]@)->0,
            ),
    decreases n,
{
    if n > 0 {
        law_keys_give_each_action_once(binds, keys, (n - 1) as nat);
        let rest = resolved(binds, keys, (n - 1) as nat);
        let all = resolved(binds, keys, n);
        assert forall|i: int|
            0 <= i < n && binds.action_of((#[trigger] keys[i])@) is Some implies listed(
            all,
            binds.action_of(keys[i]@)->0,
        ) by {
            let a = binds.action_of(keys[i]@)->0;
            if i < n - 1 || listed(rest, a) {
                let k = choose|k: int| 0 <= k < rest.len() && #[trigger] rest[k] == a;
                assert(all[k] == a);
            } else {
                assert(all[rest.len() as int] == a);
            }
        }
    }
}

} // verus!
