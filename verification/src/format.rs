//! The persisted line format: one line per item, the item's text, a tab, the
//! word `true` or `false`, and a line feed.

use crate::store::{distinct_keys, has_key, lemma_put, put, to_map, Entry, Todo};
use vstd::prelude::*;
use vstd::string::{StrSliceExecFns, StringExecFns};

verus! {

/// Why persisted content was refused. `line` counts lines from 1.
#[derive(Clone, Copy, Debug, PartialEq, Eq, Structural)]
pub enum LoadError {
    /// A line that is not empty holds no tab.
    MissingTab { line: usize },
    /// What follows the first tab of a line is neither `true` nor `false`.
    BadFlag { line: usize },
}

/// The index of the first `c` in `s`, or the length of `s` where it has none.
pub open spec fn first_index(s: Seq<char>, c: char) -> int
    decreases s.len(),
{
    if s.len() == 0 || s[0] == c {
        0
    } else {
        1 + first_index(s.drop_first(), c)
    }
}

/// `line` without the carriage return that it may end in.
pub open spec fn strip_cr(line: Seq<char>) -> Seq<char> {
    if line.len() > 0 && line.last() == '\r' {
        line.drop_last()
    } else {
        line
    }
}

/// The lines of `s`. A line ends at a line feed, which is not part of it, nor
/// is a carriage return directly before that line feed. What follows the last
/// line feed is a line of its own unless it is empty.
pub open spec fn split_lines(s: Seq<char>) -> Seq<Seq<char>>
    decreases s.len(),
{
    if s.len() == 0 {
        Seq::empty()
    } else {
        let n = first_index(s, '\n');
        if 0 <= n < s.len() {
            seq![strip_cr(s.take(n))] + split_lines(s.skip(n + 1))
        } else {
            seq![s]
        }
    }
}

/// The text of a flag in the file.
pub open spec fn flag_text(done: bool) -> Seq<char> {
    if done {
        seq!['t', 'r', 'u', 'e']
    } else {
        seq!['f', 'a', 'l', 's', 'e']
    }
}

/// The flag that `text` spells, if it spells one.
pub open spec fn parse_flag(text: Seq<char>) -> Option<bool> {
    if text == flag_text(true) {
        Some(true)
    } else if text == flag_text(false) {
        Some(false)
    } else {
        None
    }
}

/// The entry that the non-empty line with number `number` holds: the text
/// before its first tab, and the flag spelled by all that follows that tab.
pub open spec fn parse_line(line: Seq<char>, number: usize) -> Result<Entry, LoadError> {
    let tab = first_index(line, '\t');
    if tab == line.len() {
        Err(LoadError::MissingTab { line: number })
    } else {
        match parse_flag(line.skip(tab + 1)) {
            Some(done) => Ok((line.take(tab), done)),
            None => Err(LoadError::BadFlag { line: number }),
        }
    }
}

/// The list that `lines` give, read from the first to the last: an empty line
/// gives nothing, a later line for a known text overrides its flag, and the
/// first line that holds no entry is the error.
pub open spec fn load_lines(lines: Seq<Seq<char>>) -> Result<Seq<Entry>, LoadError>
    decreases lines.len(),
{
    if lines.len() == 0 {
        Ok(Seq::empty())
    } else {
        match load_lines(lines.drop_last()) {
            Err(e) => Err(e),
            Ok(l) => {
                let line = lines.last();
                if line.len() == 0 {
                    Ok(l)
                } else {
                    match parse_line(line, lines.len() as usize) {
                        Ok(e) => Ok(put(l, e.0, e.1)),
                        Err(e) => Err(e),
                    }
                }
            },
        }
    }
}

/// The list that the persisted content `s` gives.
pub open spec fn load(s: Seq<char>) -> Result<Seq<Entry>, LoadError> {
    load_lines(split_lines(s))
}

/// The line that persists `e`, without the line feed that ends it.
pub open spec fn text_of(e: Entry) -> Seq<char> {
    e.0 + seq!['\t'] + flag_text(e.1)
}

/// The line that persists `e`.
pub open spec fn line_of(e: Entry) -> Seq<char> {
    text_of(e) + seq!['\n']
}

/// A text that the format can hold: one without tab and without line feed.
pub open spec fn storable(key: Seq<char>) -> bool {
    forall|i: int| 0 <= i < key.len() ==> key[i] != '\t' && key[i] != '\n'
}

/// Every text of `l` is one that the format can hold.
pub open spec fn all_storable(l: Seq<Entry>) -> bool {
    forall|i: int| 0 <= i < l.len() ==> storable((#[trigger] l[i]).0)
}

/// Content that is empty or ends in a line feed.
pub open spec fn ends_lines(s: Seq<char>) -> bool {
    s.len() == 0 || s.last() == '\n'
}

/// The content that persists `l`: the lines of its entries, in their order.
pub open spec fn content_of(l: Seq<Entry>) -> Seq<char>
    decreases l.len(),
{
    if l.len() == 0 {
        Seq::empty()
    } else {
        content_of(l.drop_last()) + line_of(l.last())
    }
}

/// `first_index` is within bounds, nothing before it is `c`, and it is at a `c`
/// unless it is the length.
pub proof fn lemma_first_index(s: Seq<char>, c: char)
    ensures
        0 <= first_index(s, c) <= s.len(),
        forall|j: int| 0 <= j < first_index(s, c) ==> s[j] != c,
        first_index(s, c) < s.len() ==> s[first_index(s, c)] == c,
    decreases s.len(),
{
    if s.len() == 0 || s[0] == c {
    } else {
        let t = s.drop_first();
        lemma_first_index(t, c);
        assert forall|j: int| 0 <= j < first_index(s, c) implies s[j] != c by {
            if j > 0 {
                assert(s[j] == t[j - 1]);
            }
        }
    }
}

/// An index with nothing but other characters before it, which is at a `c` or
/// at the end, is the first index of `c`.
pub proof fn lemma_first_index_is(s: Seq<char>, c: char, k: int)
    requires
        0 <= k <= s.len(),
        forall|j: int| 0 <= j < k ==> s[j] != c,
        k < s.len() ==> s[k] == c,
    ensures
        first_index(s, c) == k,
    decreases s.len(),
{
    if s.len() == 0 || s[0] == c {
    } else {
        let t = s.drop_first();
        assert forall|j: int| 0 <= j < k - 1 implies t[j] != c by {
            assert(t[j] == s[j + 1]);
        }
        lemma_first_index_is(t, c, k - 1);
    }
}

/// The first error among the lines read so far stays the error, whatever
/// lines follow.
pub proof fn lemma_load_lines_error(head: Seq<Seq<char>>, tail: Seq<Seq<char>>)
    requires
        load_lines(head) is Err,
    ensures
        load_lines(head + tail) == load_lines(head),
    decreases tail.len(),
{
    if tail.len() == 0 {
        assert(head + tail =~= head);
    } else {
        lemma_load_lines_error(head, tail.drop_last());
        assert((head + tail).drop_last() =~= head + tail.drop_last());
    }
}

/// The index of the first `c` in `chars` from `from` on and before `to`, or
/// `to` where there is none.
fn scan(chars: &Vec<char>, from: usize, to: usize, c: char) -> (at: usize)
    requires
        from <= to <= chars@.len(),
    ensures
        at == from + first_index(chars@.subrange(from as int, to as int), c),
        from <= at <= to,
{
    let mut at: usize = from;
    while at < to && chars[at] != c
        invariant
            from <= at <= to <= chars@.len(),
            forall|j: int| from <= j < at ==> chars@[j] != c,
        decreases to - at,
    {
        at += 1;
    }
    proof {
        lemma_first_index_is(chars@.subrange(from as int, to as int), c, at - from);
    }
    at
}

/// The flag spelled by the characters of `chars` from `from` on and before
/// `to`.
fn flag_at(chars: &Vec<char>, from: usize, to: usize) -> (flag: Option<bool>)
    requires
        from <= to <= chars@.len(),
    ensures
        flag == parse_flag(chars@.subrange(from as int, to as int)),
{
    let ghost text = chars@.subrange(from as int, to as int);
    if to - from == 4 && chars[from] == 't' && chars[from + 1] == 'r' && chars[from + 2] == 'u'
        && chars[from + 3] == 'e' {
        assert(text =~= flag_text(true));
        Some(true)
    } else if to - from == 5 && chars[from] == 'f' && chars[from + 1] == 'a' && chars[from + 2]
        == 'l' && chars[from + 3] == 's' && chars[from + 4] == 'e' {
        assert(text =~= flag_text(false));
        assert(flag_text(false).len() != flag_text(true).len());
        Some(false)
    } else {
        assert(text != flag_text(true)) by {
            if text == flag_text(true) {
                assert(text.len() == 4);
                assert(text[0] == 't' && text[1] == 'r' && text[2] == 'u' && text[3] == 'e');
            }
        }
        assert(text != flag_text(false)) by {
            if text == flag_text(false) {
                assert(text.len() == 5);
                assert(text[0] == 'f' && text[1] == 'a' && text[2] == 'l' && text[3] == 's'
                    && text[4] == 'e');
            }
        }
        None
    }
}

/// Behind content that ends its last line, more content is split as if it
/// stood alone.
pub proof fn lemma_split_lines_concat(a: Seq<char>, b: Seq<char>)
    requires
        ends_lines(a),
    ensures
        split_lines(a + b) == split_lines(a) + split_lines(b),
    decreases a.len(),
{
    if a.len() == 0 {
        assert(a + b =~= b);
        assert(split_lines(a) + split_lines(b) =~= split_lines(b));
    } else {
        let n = first_index(a, '\n');
        lemma_first_index(a, '\n');
        assert(n < a.len()) by {
            if n == a.len() {
                assert(a[a.len() - 1] != '\n');
            }
        }
        assert forall|j: int| 0 <= j < n implies (a + b)[j] != '\n' by {
            assert((a + b)[j] == a[j]);
        }
        assert((a + b)[n] == a[n]);
        lemma_first_index_is(a + b, '\n', n);
        let rest = a.skip(n + 1);
        assert(ends_lines(rest)) by {
            if rest.len() > 0 {
                assert(rest.last() == a.last());
            }
        }
        assert((a + b).take(n) =~= a.take(n));
        assert((a + b).skip(n + 1) =~= rest + b);
        lemma_split_lines_concat(rest, b);
        assert(split_lines(a + b) =~= split_lines(a) + split_lines(b));
    }
}

/// The line of an entry with a storable text is split off as that entry's
/// text, tab and flag.
pub proof fn lemma_split_line_of(e: Entry)
    requires
        storable(e.0),
    ensures
        split_lines(line_of(e)) == seq![text_of(e)],
        text_of(e).len() > 0,
        parse_line(text_of(e), 1) is Ok,
        forall|number: usize| parse_line(text_of(e), number) == Ok::<Entry, LoadError>(e),
{
    let text = text_of(e);
    let line = line_of(e);
    let k = e.0.len() as int;
    assert forall|j: int| 0 <= j < text.len() implies text[j] != '\n' by {
        if j < k {
            assert(text[j] == e.0[j]);
        } else if j > k {
            assert(text[j] == flag_text(e.1)[j - k - 1]);
        }
    }
    assert forall|j: int| 0 <= j < text.len() implies line[j] != '\n' by {
        assert(line[j] == text[j]);
    }
    lemma_first_index_is(line, '\n', text.len() as int);
    assert(line.take(text.len() as int) =~= text);
    assert(line.skip(text.len() as int + 1) =~= Seq::<char>::empty());
    assert(text.last() == 'e');
    assert(split_lines(Seq::<char>::empty()) =~= Seq::<Seq<char>>::empty());
    assert(split_lines(line) =~= seq![text]);
    assert forall|j: int| 0 <= j < k implies text[j] != '\t' by {
        assert(text[j] == e.0[j]);
    }
    lemma_first_index_is(text, '\t', k);
    assert(text.take(k) =~= e.0);
    assert(text.skip(k + 1) =~= flag_text(e.1));
    assert(flag_text(true).len() != flag_text(false).len());
}

/// The persisted content of a list splits into the lines of its entries.
pub proof fn lemma_split_content(l: Seq<Entry>)
    requires
        all_storable(l),
    ensures
        split_lines(content_of(l)) == Seq::new(l.len(), |i: int| text_of(l[i])),
        ends_lines(content_of(l)),
    decreases l.len(),
{
    let lines = Seq::new(l.len(), |i: int| text_of(l[i]));
    if l.len() == 0 {
        assert(split_lines(content_of(l)) =~= lines);
    } else {
        let init = l.drop_last();
        lemma_split_content(init);
        lemma_split_lines_concat(content_of(init), line_of(l.last()));
        lemma_split_line_of(l.last());
        assert(split_lines(content_of(l)) =~= lines);
        assert(content_of(l).last() == '\n');
    }
}

/// Saving then loading gives the list back: content written for a list
/// whose texts are distinct and hold neither tab nor line feed is loaded as
/// that same list, entry for entry, and so as the same mapping from text to
/// flag.
pub proof fn lemma_save_then_load(l: Seq<Entry>)
    requires
        distinct_keys(l),
        all_storable(l),
    ensures
        load(content_of(l)) == Ok::<Seq<Entry>, LoadError>(l),
        match load(content_of(l)) {
            Ok(back) => to_map(back) == to_map(l),
            Err(_) => false,
        },
{
    lemma_split_content(l);
    lemma_load_texts(l);
}

/// The lines of the entries of a list without repeated texts are loaded as
/// that list.
proof fn lemma_load_texts(l: Seq<Entry>)
    requires
        distinct_keys(l),
        all_storable(l),
    ensures
        load_lines(Seq::new(l.len(), |i: int| text_of(l[i]))) == Ok::<Seq<Entry>, LoadError>(l),
    decreases l.len(),
{
    let lines = Seq::new(l.len(), |i: int| text_of(l[i]));
    if l.len() > 0 {
        let init = l.drop_last();
        let last = l.last();
        assert(lines.drop_last() =~= Seq::new(init.len(), |i: int| text_of(init[i])));
        assert(distinct_keys(init)) by {
            assert forall|i: int, j: int|
                0 <= i < init.len() && 0 <= j < init.len() && (#[trigger] init[i]).0 == (
                #[trigger] init[j]).0 implies i == j by {
                assert(l[i] == init[i] && l[j] == init[j]);
            }
        }
        assert(all_storable(init)) by {
            assert forall|i: int| 0 <= i < init.len() implies storable((#[trigger] init[i]).0) by {
                assert(l[i] == init[i]);
            }
        }
        lemma_load_texts(init);
        lemma_split_line_of(last);
        assert(!has_key(init, last.0)) by {
            if has_key(init, last.0) {
                let i = choose|i: int| 0 <= i < init.len() && (#[trigger] init[i]).0 == last.0;
                assert(l[i] == init[i]);
                assert(l[l.len() - 1] == last);
            }
        }
        assert(init.push(last) =~= l);
        assert(lines.last() == text_of(last));
        assert(parse_line(text_of(last), lines.len() as usize) == Ok::<Entry, LoadError>(last));
        assert(put(init, last.0, last.1) == l);
    } else {
        assert(l =~= Seq::<Entry>::empty());
    }
}

/// The order of the lines does not matter to the mapping: two lists that
/// are the same mapping from text to flag, whatever the order of their
/// entries, are loaded from their contents as the same mapping.
pub proof fn lemma_order_does_not_matter(a: Seq<Entry>, b: Seq<Entry>)
    requires
        distinct_keys(a),
        distinct_keys(b),
        all_storable(a),
        all_storable(b),
        to_map(a) == to_map(b),
    ensures
        match (load(content_of(a)), load(content_of(b))) {
            (Ok(x), Ok(y)) => to_map(x) == to_map(y) && to_map(x) == to_map(a),
            _ => false,
        },
{
    lemma_save_then_load(a);
    lemma_save_then_load(b);
}

/// Whatever lines are loaded, no text occurs twice in the list they give.
pub proof fn lemma_load_lines_distinct(lines: Seq<Seq<char>>)
    ensures
        match load_lines(lines) {
            Ok(l) => distinct_keys(l),
            Err(_) => true,
        },
    decreases lines.len(),
{
    if lines.len() > 0 {
        lemma_load_lines_distinct(lines.drop_last());
        match load_lines(lines.drop_last()) {
            Ok(l) => {
                let line = lines.last();
                if line.len() > 0 {
                    match parse_line(line, lines.len() as usize) {
                        Ok(e) => {
                            lemma_put(l, e.0, e.1);
                        },
                        Err(_) => {},
                    }
                }
            },
            Err(_) => {},
        }
    }
}

/// Empty content, as in a file that was just created, gives the empty list.
pub proof fn lemma_load_empty()
    ensures
        load(Seq::<char>::empty()) == Ok::<Seq<Entry>, LoadError>(Seq::empty()),
{
}

/// The characters of `s`, one by one.
fn chars_of(s: &str) -> (v: Vec<char>)
    ensures
        v@ == s@,
{
    let mut v: Vec<char> = Vec::new();
    for c in it: s.chars()
        invariant
            it.seq() == s@,
            v@ == it.seq().take(it.index()),
    {
        v.push(c);
    }
    v
}

/// What one line adds to the lines read before it.
proof fn lemma_load_lines_push(head: Seq<Seq<char>>, line: Seq<char>)
    ensures
        load_lines(head.push(line)) == match load_lines(head) {
            Err(e) => Err(e),
            Ok(l) => if line.len() == 0 {
                Ok(l)
            } else {
                match parse_line(line, (head.len() + 1) as usize) {
                    Ok(e) => Ok(put(l, e.0, e.1)),
                    Err(e) => Err(e),
                }
            },
        },
{
    assert(head.push(line).drop_last() =~= head);
}

impl Todo {
    /// Builds the list from the whole content of the persisted file.
    ///
    /// The content is read line by line as `load` says. Content that holds a
    /// line without a tab, or with something else than `true` or `false`
    /// behind its first tab, is refused with the number of the first such
    /// line.
    pub fn new(content: &str) -> (r: Result<Todo, LoadError>)
        ensures
            match r {
                Ok(todo) => load(content@) == Ok::<Seq<Entry>, LoadError>(todo@) && distinct_keys(
                    todo@,
                ),
                Err(e) => load(content@) == Err::<Seq<Entry>, LoadError>(e),
            },
    {
        let chars = chars_of(content);
        let n = chars.len();
        let mut todo = Todo::empty();
        let mut start: usize = 0;
        let mut number: usize = 0;
        let ghost mut seen: Seq<Seq<char>> = Seq::empty();
        assert(content@.skip(0) =~= content@);
        while start < n
            invariant
                chars@ == content@,
                n == chars@.len(),
                start <= n,
                number == seen.len(),
                number <= start,
                split_lines(content@) == seen + split_lines(content@.skip(start as int)),
                load_lines(seen) == Ok::<Seq<Entry>, LoadError>(todo@),
                distinct_keys(todo@),
            decreases n - start,
        {
            let ghost rest = content@.skip(start as int);
            let end = scan(&chars, start, n, '\n');
            assert(chars@.subrange(start as int, n as int) =~= rest);
            let ended = end < n;
            let stop = if ended && end > start && chars[end - 1] == '\r' {
                end - 1
            } else {
                end
            };
            let ghost line = content@.subrange(start as int, stop as int);
            let next = if ended {
                end + 1
            } else {
                end
            };
            proof {
                if ended {
                    assert(rest.take(end - start) =~= content@.subrange(start as int, end as int));
                    assert(strip_cr(rest.take(end - start)) =~= line);
                    assert(rest.skip(end - start + 1) =~= content@.skip(next as int));
                } else {
                    assert(line =~= rest);
                    assert(content@.skip(next as int) =~= Seq::<char>::empty());
                }
                assert(split_lines(rest) =~= seq![line] + split_lines(content@.skip(next as int)));
                assert(seen + split_lines(rest) =~= seen.push(line) + split_lines(
                    content@.skip(next as int),
                ));
                lemma_load_lines_push(seen, line);
            }
            number = number + 1;
            if stop > start {
                let tab = scan(&chars, start, stop, '\t');
                assert(chars@.subrange(start as int, stop as int) =~= line);
                if tab == stop {
                    proof {
                        lemma_load_lines_error(
                            seen.push(line),
                            split_lines(content@.skip(next as int)),
                        );
                    }
                    return Err(LoadError::MissingTab { line: number });
                }
                assert(chars@.subrange(tab + 1, stop as int) =~= line.skip(tab - start + 1));
                match flag_at(&chars, tab + 1, stop) {
                    None => {
                        proof {
                            lemma_load_lines_error(
                                seen.push(line),
                                split_lines(content@.skip(next as int)),
                            );
                        }
                        return Err(LoadError::BadFlag { line: number });
                    },
                    Some(done) => {
                        let key = String::from_str(content.substring_char(start, tab));
                        assert(key@ =~= line.take(tab - start));
                        todo.put(key, done);
                    },
                }
            }
            proof {
                seen = seen.push(line);
            }
            start = next;
        }
        assert(seen + split_lines(content@.skip(start as int)) =~= seen);
        Ok(todo)
    }

    /// The whole content of the persisted file for this list: the line of
    /// each item, oldest first. The caller overwrites the file with it in
    /// one write.
    pub fn save(&self) -> (content: String)
        ensures
            content@ == content_of(self@),
    {
        let mut content = String::new();
        let count = self.len();
        let mut at: usize = 0;
        assert(self@.take(0) =~= Seq::<Entry>::empty());
        while at < count
            invariant
                count == self@.len(),
                at <= count,
                content@ == content_of(self@.take(at as int)),
            decreases count - at,
        {
            let (key, done) = self.item(at);
            proof {
                reveal_strlit("\t");
                reveal_strlit("true");
                reveal_strlit("false");
                reveal_strlit("\n");
                assert(self@.take(at + 1).drop_last() =~= self@.take(at as int));
                assert("true"@ =~= flag_text(true));
                assert("false"@ =~= flag_text(false));
                assert("\t"@ =~= seq!['\t']);
                assert("\n"@ =~= seq!['\n']);
            }
            content.append(key);
            content.append("\t");
            content.append(
                if done {
                    "true"
                } else {
                    "false"
                },
            );
            content.append("\n");
            assert(content@ =~= content_of(self@.take(at as int)) + line_of(self@[at as int]));
            at += 1;
        }
        assert(self@.take(count as int) =~= self@);
        content
    }
}

} // verus!
