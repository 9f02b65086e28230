//! The in-memory task list and the operations that change it.

use vstd::prelude::*;
use vstd::string::StringExecFns;

verus! {

/// What one item of the list is, mathematically: its text and its done flag.
pub type Entry = (Seq<char>, bool);

/// Whether some entry of `l` has the text `key`.
pub open spec fn has_key(l: Seq<Entry>, key: Seq<char>) -> bool {
    exists|i: int| 0 <= i < l.len() && (#[trigger] l[i]).0 == key
}

/// No text occurs twice in `l`.
pub open spec fn distinct_keys(l: Seq<Entry>) -> bool {
    forall|i: int, j: int|
        0 <= i < l.len() && 0 <= j < l.len() && (#[trigger] l[i]).0 == (#[trigger] l[j]).0 ==> i
            == j
}

/// The texts of the entries of `l`.
pub open spec fn keys_of(l: Seq<Entry>) -> Set<Seq<char>> {
    Set::new(|key: Seq<char>| has_key(l, key))
}

/// Where `key` stands in `l`. Meaningful only when `has_key(l, key)`.
pub open spec fn position(l: Seq<Entry>, key: Seq<char>) -> int {
    choose|i: int| 0 <= i < l.len() && (#[trigger] l[i]).0 == key
}

/// The flag stored under `key`, if `key` is in `l`.
pub open spec fn lookup(l: Seq<Entry>, key: Seq<char>) -> Option<bool> {
    if has_key(l, key) {
        Some(l[position(l, key)].1)
    } else {
        None
    }
}

/// `l` read as a mapping from text to flag.
pub open spec fn to_map(l: Seq<Entry>) -> Map<Seq<char>, bool> {
    Map::new(|k: Seq<char>| has_key(l, k), |k: Seq<char>| l[position(l, k)].1)
}

/// `l` after `key` has been stored with `done`: a known key keeps its place
/// and takes the new flag, an unknown one goes to the end.
pub open spec fn put(l: Seq<Entry>, key: Seq<char>, done: bool) -> Seq<Entry> {
    if has_key(l, key) {
        l.update(position(l, key), (key, done))
    } else {
        l.push((key, done))
    }
}

/// `l` after an item with text `key` has been added: unchanged where the
/// text is known, otherwise with the new item, not done, at the end.
pub open spec fn added(l: Seq<Entry>, key: Seq<char>) -> Seq<Entry> {
    if has_key(l, key) {
        l
    } else {
        l.push((key, false))
    }
}

/// `l` without the entry of `key`; `l` itself where there is none.
pub open spec fn without(l: Seq<Entry>, key: Seq<char>) -> Seq<Entry> {
    if has_key(l, key) {
        l.remove(position(l, key))
    } else {
        l
    }
}

/// `l` after a request to mark `key` as `done`: only a known key whose flag
/// differs changes.
pub open spec fn marked(l: Seq<Entry>, key: Seq<char>, done: bool) -> Seq<Entry> {
    if has_key(l, key) {
        l.update(position(l, key), (key, done))
    } else {
        l
    }
}

/// What a request to mark an item found.
#[derive(Clone, Copy, Debug, PartialEq, Eq, Structural)]
pub enum Update {
    /// No item has that text.
    Missing,
    /// The item already had the requested flag.
    Unchanged,
    /// The item's flag was switched; the list has to be persisted.
    Changed,
}

/// What `marked` reports for `key` and `done` on `l`.
pub open spec fn update_outcome(l: Seq<Entry>, key: Seq<char>, done: bool) -> Update {
    match lookup(l, key) {
        None => Update::Missing,
        Some(flag) => if flag == done {
            Update::Unchanged
        } else {
            Update::Changed
        },
    }
}

/// What is shown after a request to mark an item as done (`is_done`) or as
/// not done met `outcome`.
pub open spec fn update_text(outcome: Update, is_done: bool) -> Seq<char> {
    let modifier = if is_done {
        ""@
    } else {
        "not "@
    };
    match outcome {
        Update::Missing => "item doesn't exist!"@,
        Update::Unchanged => "item was already marked as "@ + modifier + "done"@,
        Update::Changed => "item marked as "@ + modifier + "done!"@,
    }
}

impl Update {
    /// The message for the user after a request to mark an item as done
    /// (`is_done`) or as not done met this outcome. After `Update::Changed`
    /// it is the message to show once the list has been persisted.
    pub fn message(self, is_done: bool) -> (text: String)
        ensures
            text@ == update_text(self, is_done),
    {
        let modifier = if is_done {
            ""
        } else {
            "not "
        };
        match self {
            Update::Missing => String::from_str("item doesn't exist!"),
            Update::Unchanged => {
                let mut text = String::from_str("item was already marked as ");
                text.append(modifier);
                text.append("done");
                text
            },
            Update::Changed => {
                let mut text = String::from_str("item marked as ");
                text.append(modifier);
                text.append("done!");
                text
            },
        }
    }
}

/// The note for an item that is added a second time.
pub open spec fn already_exists_text() -> Seq<char> {
    "item already exists, skipping"@
}

/// The message after an item was removed.
pub open spec fn removed_text() -> Seq<char> {
    "Item removed successfully"@
}

/// The message where the item to remove is not in the list.
pub open spec fn not_found_text() -> Seq<char> {
    "That item doesn't exist"@
}

/// In a list without repeated texts, an entry's index is its position.
pub proof fn lemma_position(l: Seq<Entry>, i: int)
    requires
        distinct_keys(l),
        0 <= i < l.len(),
    ensures
        has_key(l, l[i].0),
        position(l, l[i].0) == i,
{
}

/// A list without repeated texts stays one when an entry with a new text
/// is put at its end, and is then the old mapping with that text added.
pub proof fn lemma_push(l: Seq<Entry>, key: Seq<char>, done: bool)
    requires
        distinct_keys(l),
        !has_key(l, key),
    ensures
        distinct_keys(l.push((key, done))),
        to_map(l.push((key, done))) == to_map(l).insert(key, done),
{
    let after = l.push((key, done));
    assert forall|i: int, j: int|
        0 <= i < after.len() && 0 <= j < after.len() && (#[trigger] after[i]).0 == (
        #[trigger] after[j]).0 implies i == j by {
        if i < l.len() {
            assert(l[i] == after[i]);
        }
        if j < l.len() {
            assert(l[j] == after[j]);
        }
    }
    assert forall|k: Seq<char>| has_key(after, k) <==> (has_key(l, k) || k == key) by {
        if has_key(after, k) {
            let i = choose|i: int| 0 <= i < after.len() && (#[trigger] after[i]).0 == k;
            if i < l.len() {
                assert(l[i] == after[i]);
            }
        }
        if has_key(l, k) {
            let i = choose|i: int| 0 <= i < l.len() && (#[trigger] l[i]).0 == k;
            assert(after[i] == l[i]);
        }
        if k == key {
            assert(after[l.len() as int].0 == k);
        }
    }
    assert forall|k: Seq<char>| has_key(after, k) implies to_map(after)[k] == to_map(l).insert(
        key,
        done,
    )[k] by {
        let i = position(after, k);
        if k == key {
            assert(after[l.len() as int].0 == k);
        } else {
            let j = position(l, k);
            assert(after[j] == l[j]);
        }
    }
    assert(to_map(after) =~= to_map(l).insert(key, done));
}

/// A list without repeated texts stays one when the flag of one entry is
/// set, keeps its texts, and is then the old mapping with that flag stored.
pub proof fn lemma_update(l: Seq<Entry>, at: int, done: bool)
    requires
        distinct_keys(l),
        0 <= at < l.len(),
    ensures
        distinct_keys(l.update(at, (l[at].0, done))),
        keys_of(l.update(at, (l[at].0, done))) == keys_of(l),
        to_map(l.update(at, (l[at].0, done))) == to_map(l).insert(l[at].0, done),
{
    let key = l[at].0;
    let after = l.update(at, (key, done));
    assert forall|i: int| 0 <= i < l.len() implies (#[trigger] after[i]).0 == l[i].0 by {}
    assert forall|i: int, j: int|
        0 <= i < after.len() && 0 <= j < after.len() && (#[trigger] after[i]).0 == (
        #[trigger] after[j]).0 implies i == j by {
        assert(l[i].0 == after[i].0);
        assert(l[j].0 == after[j].0);
    }
    assert forall|k: Seq<char>| has_key(after, k) <==> has_key(l, k) by {
        if has_key(after, k) {
            let i = choose|i: int| 0 <= i < after.len() && (#[trigger] after[i]).0 == k;
            assert(l[i].0 == k);
        }
        if has_key(l, k) {
            let i = choose|i: int| 0 <= i < l.len() && (#[trigger] l[i]).0 == k;
            assert(after[i].0 == k);
        }
    }
    assert(keys_of(after) =~= keys_of(l));
    assert(has_key(l, key));
    assert forall|k: Seq<char>| has_key(after, k) implies to_map(after)[k] == to_map(l).insert(
        key,
        done,
    )[k] by {
        let i = position(after, k);
        let j = position(l, k);
        assert(after[j].0 == k);
        assert(i == j);
    }
    assert(to_map(after) =~= to_map(l).insert(key, done));
}

/// A list without repeated texts stays one when an entry is taken out, and
/// is then the old mapping without that entry's text.
pub proof fn lemma_take_out(l: Seq<Entry>, at: int)
    requires
        distinct_keys(l),
        0 <= at < l.len(),
    ensures
        distinct_keys(l.remove(at)),
        !has_key(l.remove(at), l[at].0),
        to_map(l.remove(at)) == to_map(l).remove(l[at].0),
{
    let key = l[at].0;
    let after = l.remove(at);
    assert forall|i: int| 0 <= i < after.len() implies #[trigger] after[i] == l[if i < at {
        i
    } else {
        i + 1
    }] by {}
    assert forall|i: int, j: int|
        0 <= i < after.len() && 0 <= j < after.len() && (#[trigger] after[i]).0 == (
        #[trigger] after[j]).0 implies i == j by {
        let a = if i < at { i } else { i + 1 };
        let b = if j < at { j } else { j + 1 };
        assert(l[a] == after[i]);
        assert(l[b] == after[j]);
    }
    assert forall|k: Seq<char>| has_key(after, k) <==> (has_key(l, k) && k != key) by {
        if has_key(after, k) {
            let i = choose|i: int| 0 <= i < after.len() && (#[trigger] after[i]).0 == k;
            let a = if i < at { i } else { i + 1 };
            assert(l[a] == after[i]);
            assert(l[a].0 == k);
        }
        if has_key(l, k) && k != key {
            let a = choose|a: int| 0 <= a < l.len() && (#[trigger] l[a]).0 == k;
            let i = if a < at { a } else { a - 1 };
            assert(after[i] == l[a]);
            assert(after[i].0 == k);
        }
    }
    assert forall|k: Seq<char>| has_key(after, k) implies to_map(after)[k] == to_map(l).remove(
        key,
    )[k] by {
        let i = position(after, k);
        let a = if i < at { i } else { i + 1 };
        assert(l[a] == after[i]);
        assert(l[a].0 == k);
        assert(position(l, k) == a);
    }
    assert(to_map(after) =~= to_map(l).remove(key));
}

/// Storing a text with a flag keeps the texts distinct, and gives the old
/// mapping with that text mapped to that flag.
pub proof fn lemma_put(l: Seq<Entry>, key: Seq<char>, done: bool)
    requires
        distinct_keys(l),
    ensures
        distinct_keys(put(l, key, done)),
        lookup(put(l, key, done), key) == Some(done),
        to_map(put(l, key, done)) == to_map(l).insert(key, done),
{
    let after = put(l, key, done);
    if has_key(l, key) {
        let at = position(l, key);
        lemma_update(l, at, done);
        assert(after[at] == (key, done));
        lemma_position(after, at);
    } else {
        lemma_push(l, key, done);
        assert(after[l.len() as int] == (key, done));
        lemma_position(after, l.len() as int);
    }
}

/// Adding an item: a text that was not in the list is afterwards found as
/// not done, the list has grown by that one item, and as a mapping it is
/// the old one with the text mapped to not done.
pub proof fn lemma_add_new(l: Seq<Entry>, key: Seq<char>)
    requires
        distinct_keys(l),
        !has_key(l, key),
    ensures
        distinct_keys(added(l, key)),
        lookup(added(l, key), key) == Some(false),
        added(l, key).len() == l.len() + 1,
        to_map(added(l, key)) == to_map(l).insert(key, false),
{
    lemma_push(l, key, false);
    let after = added(l, key);
    assert(after[l.len() as int].0 == key);
    lemma_position(after, l.len() as int);
}

/// Adding an item whose text is in the list changes nothing; so adding the
/// same text a second time leaves the list, and its size, as the first time
/// left them.
pub proof fn lemma_add_again(l: Seq<Entry>, key: Seq<char>)
    ensures
        has_key(l, key) ==> added(l, key) == l,
        has_key(added(l, key), key),
        added(added(l, key), key) == added(l, key),
        added(added(l, key), key).len() == added(l, key).len(),
{
    if !has_key(l, key) {
        assert(added(l, key)[l.len() as int].0 == key);
    }
}

/// Marking an item: the flag of a known text is switched exactly when the
/// requested flag differs from the one it has, the text is then found with
/// the requested flag, every other text keeps its flag, and no text is
/// created or lost.
pub proof fn lemma_mark(l: Seq<Entry>, key: Seq<char>, done: bool)
    requires
        distinct_keys(l),
    ensures
        distinct_keys(marked(l, key, done)),
        keys_of(marked(l, key, done)) == keys_of(l),
        marked(l, key, done).len() == l.len(),
        marked(l, key, done) != l <==> update_outcome(l, key, done) == Update::Changed,
        update_outcome(l, key, done) == Update::Changed <==> lookup(l, key) == Some(!done),
        has_key(l, key) ==> lookup(marked(l, key, done), key) == Some(done),
        has_key(l, key) ==> to_map(marked(l, key, done)) == to_map(l).insert(key, done),
        forall|other: Seq<char>|
            other != key ==> lookup(marked(l, key, done), other) == lookup(l, other),
{
    if has_key(l, key) {
        let at = position(l, key);
        let after = marked(l, key, done);
        lemma_update(l, at, done);
        assert(after[at] == (key, done));
        lemma_position(after, at);
        if l[at].1 == done {
            assert(after =~= l);
        } else {
            assert(after[at] != l[at]);
        }
        assert forall|other: Seq<char>| other != key implies lookup(after, other) == lookup(
            l,
            other,
        ) by {
            assert(has_key(after, other) <==> has_key(l, other)) by {
                assert(keys_of(after).contains(other) <==> keys_of(l).contains(other));
            }
            if has_key(l, other) {
                let j = position(l, other);
                assert(after[j] == l[j]);
                lemma_position(after, j);
            }
        }
    }
}

/// Marking an item whose text is not in the list leaves the list as it was
/// and reports that the item is missing.
pub proof fn lemma_mark_absent(l: Seq<Entry>, key: Seq<char>, done: bool)
    requires
        !has_key(l, key),
    ensures
        marked(l, key, done) == l,
        update_outcome(l, key, done) == Update::Missing,
{
}

/// Removing an item: the text is afterwards not in the list, every other
/// text keeps its flag, and as a mapping the list is the old one without
/// that text. A text that was not in the list leaves it as it was.
pub proof fn lemma_remove(l: Seq<Entry>, key: Seq<char>)
    requires
        distinct_keys(l),
    ensures
        distinct_keys(without(l, key)),
        !has_key(without(l, key), key),
        to_map(without(l, key)) == to_map(l).remove(key),
        !has_key(l, key) ==> without(l, key) == l,
{
    if has_key(l, key) {
        lemma_take_out(l, position(l, key));
    } else {
        assert(to_map(l).remove(key) =~= to_map(l));
    }
}

/// The task list. Its view is the sequence of its entries, oldest first;
/// no text occurs twice in it.
pub struct Todo {
    items: Vec<(String, bool)>,
}

impl View for Todo {
    type V = Seq<Entry>;

    closed spec fn view(&self) -> Seq<Entry> {
        Seq::new(self.items@.len(), |i: int| (self.items@[i].0@, self.items@[i].1))
    }
}

impl Todo {
    #[verifier::type_invariant]
    spec fn inv(&self) -> bool {
        distinct_keys(self@)
    }

    /// The list without any item.
    pub fn empty() -> (r: Todo)
        ensures
            r@ == Seq::<Entry>::empty(),
    {
        Todo { items: Vec::new() }
    }

    /// The index of `key` in the list, if it is there.
    fn find(&self, key: &String) -> (r: Option<usize>)
        ensures
            distinct_keys(self@),
            match r {
                Some(i) => i < self@.len() && self@[i as int].0 == key@ && has_key(self@, key@)
                    && position(self@, key@) == i,
                None => !has_key(self@, key@),
            },
    {
        proof {
            use_type_invariant(self);
        }
        let mut i: usize = 0;
        while i < self.items.len()
            invariant
                i <= self.items.len(),
                distinct_keys(self@),
                forall|j: int| 0 <= j < i ==> (#[trigger] self@[j]).0 != key@,
            decreases self.items.len() - i,
        {
            if self.items[i].0 == *key {
                proof {
                    lemma_position(self@, i as int);
                }
                return Some(i);
            }
            i += 1;
        }
        None
    }

    /// How many items the list holds.
    pub fn len(&self) -> (n: usize)
        ensures
            n == self@.len(),
            distinct_keys(self@),
    {
        proof {
            use_type_invariant(self);
        }
        self.items.len()
    }

    /// The flag of the item with text `key`, if there is one.
    pub fn get(&self, key: &str) -> (r: Option<bool>)
        ensures
            r == lookup(self@, key@),
    {
        let wanted = String::from_str(key);
        match self.find(&wanted) {
            Some(i) => Some(self.items[i].1),
            None => None,
        }
    }

    /// Puts a new item at the end of the list.
    fn append(&mut self, key: String, done: bool)
        requires
            !has_key(old(self)@, key@),
        ensures
            final(self)@ == old(self)@.push((key@, done)),
    {
        proof {
            use_type_invariant(&*self);
        }
        let mut items: Vec<(String, bool)> = Vec::new();
        core::mem::swap(&mut self.items, &mut items);
        items.push((key, done));
        let ghost after = old(self)@.push((key@, done));
        proof {
            lemma_push(old(self)@, key@, done);
        }
        assert(Seq::new(items@.len(), |i: int| (items@[i].0@, items@[i].1)) =~= after);
        self.items = items;
    }

    /// Takes the item at index `at` out of the list.
    fn take_out(&mut self, at: usize) -> (flag: bool)
        requires
            at < old(self)@.len(),
        ensures
            final(self)@ == old(self)@.remove(at as int),
            flag == old(self)@[at as int].1,
    {
        proof {
            use_type_invariant(&*self);
        }
        let mut items: Vec<(String, bool)> = Vec::new();
        core::mem::swap(&mut self.items, &mut items);
        let gone = items.remove(at);
        let ghost after = old(self)@.remove(at as int);
        proof {
            lemma_take_out(old(self)@, at as int);
        }
        assert(Seq::new(items@.len(), |i: int| (items@[i].0@, items@[i].1)) =~= after);
        self.items = items;
        gone.1
    }

    /// Gives the item at index `at` the flag `done`.
    fn set_flag(&mut self, at: usize, done: bool)
        requires
            at < old(self)@.len(),
        ensures
            final(self)@ == old(self)@.update(at as int, (old(self)@[at as int].0, done)),
    {
        proof {
            use_type_invariant(&*self);
        }
        let ghost after = old(self)@.update(at as int, (old(self)@[at as int].0, done));
        proof {
            lemma_update(old(self)@, at as int, done);
        }
        let mut items: Vec<(String, bool)> = Vec::new();
        core::mem::swap(&mut self.items, &mut items);
        items[at].1 = done;
        assert(Seq::new(items@.len(), |i: int| (items@[i].0@, items@[i].1)) =~= after);
        self.items = items;
    }

    /// Stores `key` with `done`, whether or not the text is known.
    pub fn put(&mut self, key: String, done: bool)
        ensures
            final(self)@ == put(old(self)@, key@, done),
            distinct_keys(final(self)@),
    {
        match self.find(&key) {
            Some(i) => {
                self.set_flag(i, done);
            },
            None => {
                self.append(key, done);
            },
        }
        proof {
            use_type_invariant(&*self);
        }
    }

    /// The text and the flag of the item at index `at`, counted from the
    /// oldest item.
    pub fn item(&self, at: usize) -> (r: (&str, bool))
        requires
            at < self@.len(),
        ensures
            r.0@ == self@[at as int].0,
            r.1 == self@[at as int].1,
    {
        (self.items[at].0.as_str(), self.items[at].1)
    }

    /// Adds an item with text `key`, not done, unless the text is known.
    ///
    /// Returns nothing where the item was added, and the note for the user
    /// where the text was known and the list stays as it was. Nothing is
    /// persisted by this.
    pub fn add(&mut self, key: String) -> (note: Option<&'static str>)
        ensures
            final(self)@ == added(old(self)@, key@),
            distinct_keys(final(self)@),
            match note {
                None => !has_key(old(self)@, key@),
                Some(text) => has_key(old(self)@, key@) && text@ == already_exists_text(),
            },
    {
        let note = match self.find(&key) {
            Some(_) => Some("item already exists, skipping"),
            None => {
                self.append(key, false);
                None
            },
        };
        proof {
            use_type_invariant(&*self);
        }
        note
    }

    /// Removes the item with text `item`, whatever its flag.
    ///
    /// Returns the message for the user, which says whether there was such
    /// an item. Nothing is persisted by this.
    pub fn remove(&mut self, item: String) -> (message: &'static str)
        ensures
            final(self)@ == without(old(self)@, item@),
            distinct_keys(final(self)@),
            message@ == if has_key(old(self)@, item@) {
                removed_text()
            } else {
                not_found_text()
            },
    {
        let message = match self.find(&item) {
            Some(at) => {
                self.take_out(at);
                "Item removed successfully"
            },
            None => "That item doesn't exist",
        };
        proof {
            use_type_invariant(&*self);
        }
        message
    }

    /// Marks the item with text `item` as done or as not done.
    ///
    /// The list changes only where the item is known and had the other flag;
    /// the result says which of the three cases was met. Where it is
    /// `Update::Changed` the caller has to persist the list.
    pub fn update_item(&mut self, item: &str, is_done: bool) -> (outcome: Update)
        ensures
            final(self)@ == marked(old(self)@, item@, is_done),
            distinct_keys(final(self)@),
            outcome == update_outcome(old(self)@, item@, is_done),
            outcome != Update::Changed ==> final(self)@ == old(self)@,
    {
        let wanted = String::from_str(item);
        let outcome = match self.find(&wanted) {
            None => Update::Missing,
            Some(at) => {
                if self.items[at].1 == is_done {
                    assert(self@.update(at as int, (item@, is_done)) =~= self@);
                    Update::Unchanged
                } else {
                    self.set_flag(at, is_done);
                    Update::Changed
                }
            },
        };
        proof {
            use_type_invariant(&*self);
        }
        outcome
    }
}

} // verus!
