//! The listings shown to the user: every item, the done ones, or the ones
//! still to do.

use crate::format::flag_text;
use crate::store::{distinct_keys, has_key, keys_of, Entry, Todo};
use vstd::prelude::*;
use vstd::string::StringExecFns;

verus! {

/// The entries of `l` whose flag is `done`, in their order.
pub open spec fn with_flag(l: Seq<Entry>, done: bool) -> Seq<Entry> {
    l.filter(|e: Entry| e.1 == done)
}

/// What a listing shows of `l`: all of it, or only the entries with the
/// flag `only`.
pub open spec fn shown(l: Seq<Entry>, only: Option<bool>) -> Seq<Entry> {
    match only {
        None => l,
        Some(done) => with_flag(l, done),
    }
}

/// The line of a listing for `e`: a tab, the text, a colon and a space, the
/// flag, and a line feed.
pub open spec fn row_of(e: Entry) -> Seq<char> {
    seq!['\t'] + e.0 + seq![':', ' '] + flag_text(e.1) + seq!['\n']
}

/// The lines of a listing for the entries `l`, in their order.
pub open spec fn rows_of(l: Seq<Entry>) -> Seq<char>
    decreases l.len(),
{
    if l.len() == 0 {
        Seq::empty()
    } else {
        rows_of(l.drop_last()) + row_of(l.last())
    }
}

/// The listing of the entries `l`: an opening brace on a line of its own,
/// the line of each entry, and a closing brace on a line of its own.
pub open spec fn listing_of(l: Seq<Entry>) -> Seq<char> {
    seq!['{', '\n'] + rows_of(l) + seq!['}', '\n']
}

/// What the next entry adds to what is shown.
proof fn lemma_shown_push(l: Seq<Entry>, e: Entry, only: Option<bool>)
    ensures
        shown(l.push(e), only) == if only is None || only == Some(e.1) {
            shown(l, only).push(e)
        } else {
            shown(l, only)
        },
{
    reveal(Seq::filter);
    assert(l.push(e).drop_last() =~= l);
}

/// An entry is among those with the flag `done` exactly if it is in the
/// list and has that flag.
pub proof fn lemma_with_flag_has(l: Seq<Entry>, done: bool, e: Entry)
    ensures
        with_flag(l, done).contains(e) <==> l.contains(e) && e.1 == done,
    decreases l.len(),
{
    reveal(Seq::filter);
    if l.len() > 0 {
        let init = l.drop_last();
        lemma_with_flag_has(init, done, e);
        let part = with_flag(init, done);
        if l.contains(e) {
            let i = choose|i: int| 0 <= i < l.len() && l[i] == e;
            if i < init.len() {
                assert(init[i] == e);
            }
        }
        if init.contains(e) {
            let i = choose|i: int| 0 <= i < init.len() && init[i] == e;
            assert(l[i] == e);
        }
        if l.last().1 == done {
            assert(with_flag(l, done) == part.push(l.last()));
            if part.contains(e) {
                let i = choose|i: int| 0 <= i < part.len() && part[i] == e;
                assert(part.push(l.last())[i] == e);
            }
            if e == l.last() {
                assert(part.push(l.last())[part.len() as int] == e);
                assert(l[l.len() - 1] == e);
            }
        }
    }
}

/// The done items and the items still to do share no text, and together
/// they have the texts of the whole list.
pub proof fn lemma_done_and_not_done(l: Seq<Entry>)
    requires
        distinct_keys(l),
    ensures
        keys_of(with_flag(l, true)).union(keys_of(with_flag(l, false))) == keys_of(l),
        keys_of(with_flag(l, true)).disjoint(keys_of(with_flag(l, false))),
{
    let done = with_flag(l, true);
    let pending = with_flag(l, false);
    assert forall|key: Seq<char>| has_key(done, key) || has_key(pending, key) implies has_key(
        l,
        key,
    ) by {
        let part = if has_key(done, key) {
            done
        } else {
            pending
        };
        let i = choose|i: int| 0 <= i < part.len() && (#[trigger] part[i]).0 == key;
        let e = part[i];
        assert(part.contains(e));
        lemma_with_flag_has(l, true, e);
        lemma_with_flag_has(l, false, e);
        let j = choose|j: int| 0 <= j < l.len() && l[j] == e;
        assert(l[j].0 == key);
    }
    assert forall|key: Seq<char>| has_key(l, key) implies has_key(done, key) || has_key(
        pending,
        key,
    ) by {
        let j = choose|j: int| 0 <= j < l.len() && (#[trigger] l[j]).0 == key;
        let e = l[j];
        assert(l.contains(e));
        lemma_with_flag_has(l, e.1, e);
        let part = with_flag(l, e.1);
        let i = choose|i: int| 0 <= i < part.len() && part[i] == e;
        assert(part[i].0 == key);
    }
    assert forall|key: Seq<char>| !(has_key(done, key) && has_key(pending, key)) by {
        if has_key(done, key) && has_key(pending, key) {
            let i = choose|i: int| 0 <= i < done.len() && (#[trigger] done[i]).0 == key;
            let j = choose|j: int| 0 <= j < pending.len() && (#[trigger] pending[j]).0 == key;
            let a = done[i];
            let b = pending[j];
            assert(done.contains(a));
            assert(pending.contains(b));
            lemma_with_flag_has(l, true, a);
            lemma_with_flag_has(l, false, b);
            let x = choose|x: int| 0 <= x < l.len() && l[x] == a;
            let y = choose|y: int| 0 <= y < l.len() && l[y] == b;
            assert(l[x].0 == l[y].0);
        }
    }
    assert(keys_of(done).union(keys_of(pending)) =~= keys_of(l));
}

impl Todo {
    /// The listing of all items, or of those with the flag `only`.
    fn _print(&self, only: Option<bool>) -> (text: String)
        ensures
            text@ == listing_of(shown(self@, only)),
    {
        let mut text = String::from_str("{\n");
        let count = self.len();
        let mut at: usize = 0;
        proof {
            reveal_strlit("{\n");
            reveal_strlit("}\n");
            reveal_strlit("\t");
            reveal_strlit(": ");
            reveal_strlit("true");
            reveal_strlit("false");
            reveal_strlit("\n");
            reveal(Seq::filter);
            assert(self@.take(0) =~= Seq::<Entry>::empty());
            assert(text@ =~= seq!['{', '\n'] + rows_of(shown(self@.take(0), only)));
        }
        while at < count
            invariant
                count == self@.len(),
                at <= count,
                text@ == seq!['{', '\n'] + rows_of(shown(self@.take(at as int), only)),
            decreases count - at,
        {
            let (key, done) = self.item(at);
            let wanted = match only {
                None => true,
                Some(flag) => flag == done,
            };
            proof {
                reveal_strlit("\t");
                reveal_strlit(": ");
                reveal_strlit("true");
                reveal_strlit("false");
                reveal_strlit("\n");
                assert(self@.take(at + 1) =~= self@.take(at as int).push(self@[at as int]));
                lemma_shown_push(self@.take(at as int), self@[at as int], only);
            }
            if wanted {
                let ghost before = shown(self@.take(at as int), only);
                assert(before.push(self@[at as int]).drop_last() =~= before);
                text.append("\t");
                text.append(key);
                text.append(": ");
                text.append(
                    if done {
                        "true"
                    } else {
                        "false"
                    },
                );
                text.append("\n");
                assert(text@ =~= seq!['{', '\n'] + (rows_of(before) + row_of(self@[at as int])));
            }
            at += 1;
        }
        proof {
            reveal_strlit("}\n");
            assert(self@.take(count as int) =~= self@);
        }
        text.append("}\n");
        text
    }

    /// The listing of all items, oldest first.
    pub fn print(&self) -> (text: String)
        ensures
            text@ == listing_of(self@),
    {
        self._print(None)
    }

    /// The listing of the items that are done.
    pub fn print_done(&self) -> (text: String)
        ensures
            text@ == listing_of(with_flag(self@, true)),
    {
        self._print(Some(true))
    }

    /// The listing of the items that are not done.
    pub fn print_not_done(&self) -> (text: String)
        ensures
            text@ == listing_of(with_flag(self@, false)),
    {
        self._print(Some(false))
    }
}

} // verus!
