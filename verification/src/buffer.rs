//! The line buffer: an ordered sequence of mutable text rows.
//!
//! A buffer is viewed as a `Seq<Seq<char>>`, one inner sequence per row.
//! `load` splits text on `'\n'` into rows and `serialize` joins rows with
//! `'\n'`; the two are exact inverses (`lemma_serialize_load_round_trip`),
//! and an empty text always yields the empty buffer, never a fault.

use vstd::prelude::*;
use vstd::string::StrSliceExecFns;

verus! {

/// Relies on `String::push`: appends the given char to the end of the string.
pub assume_specification[ String::push ](s: &mut String, ch: char)
    ensures
        final(s)@ == old(s)@.push(ch),
;

/// The rows that a text denotes: the text split at every `'\n'`.
/// Splitting never yields zero rows; text without a newline is one row.
pub open spec fn split_lines(s: Seq<char>) -> Seq<Seq<char>>
    decreases s.len(),
{
    if s.len() == 0 {
        seq![Seq::<char>::empty()]
    } else if s[0] == '\n' {
        seq![Seq::<char>::empty()] + split_lines(s.drop_first())
    } else {
        let rest = split_lines(s.drop_first());
        seq![seq![s[0]] + rest[0]] + rest.drop_first()
    }
}

/// The text that a sequence of rows denotes: the rows joined with `'\n'`.
/// Zero rows denote the empty text.
pub open spec fn join_lines(rows: Seq<Seq<char>>) -> Seq<char>
    decreases rows.len(),
{
    if rows.len() == 0 {
        Seq::<char>::empty()
    } else if rows.len() == 1 {
        rows[0]
    } else {
        rows[0] + seq!['\n'] + join_lines(rows.drop_first())
    }
}

/// The rows a buffer gets from a text: none for empty text (an empty
/// document has no rows), otherwise the text split at every `'\n'`.
pub open spec fn rows_of_text(s: Seq<char>) -> Seq<Seq<char>> {
    if s.len() == 0 {
        Seq::<Seq<char>>::empty()
    } else {
        split_lines(s)
    }
}

pub proof fn lemma_split_lines_nonempty(s: Seq<char>)
    ensures
        split_lines(s).len() >= 1,
    decreases s.len(),
{
    if s.len() == 0 {
    } else if s[0] == '\n' {
        lemma_split_lines_nonempty(s.drop_first());
    } else {
        lemma_split_lines_nonempty(s.drop_first());
    }
}

/// Prepending newline-free text to a text extends that text's first row
/// and leaves the remaining rows as they were.
pub proof fn lemma_split_lines_prepend(a: Seq<char>, s: Seq<char>)
    requires
        forall|i: int| 0 <= i < a.len() ==> a[i] != '\n',
    ensures
        split_lines(a + s) == seq![a + split_lines(s)[0]] + split_lines(s).drop_first(),
    decreases a.len(),
{
    lemma_split_lines_nonempty(s);
    if a.len() == 0 {
        assert(a + s =~= s);
        assert(a + split_lines(s)[0] =~= split_lines(s)[0]);
        assert(seq![split_lines(s)[0]] + split_lines(s).drop_first() =~= split_lines(s));
    } else {
        let t = a + s;
        assert(t[0] == a[0]);
        assert(t.len() > 0 && t[0] != '\n');
        assert(t.drop_first() =~= a.drop_first() + s);
        lemma_split_lines_prepend(a.drop_first(), s);
        let rest = split_lines(a.drop_first() + s);
        assert(rest[0] == a.drop_first() + split_lines(s)[0]);
        assert(rest.drop_first() =~= split_lines(s).drop_first());
        assert(seq![t[0]] + rest[0] =~= a + split_lines(s)[0]);
        assert(split_lines(t) =~= seq![a + split_lines(s)[0]] + split_lines(s).drop_first());
    }
}

/// Joining the rows of a split gives the text back: split and join are
/// exact inverses over every text.
pub proof fn lemma_join_split(s: Seq<char>)
    ensures
        join_lines(split_lines(s)) == s,
    decreases s.len(),
{
    if s.len() == 0 {
        assert(join_lines(split_lines(s)) =~= s);
    } else if s[0] == '\n' {
        let rest = split_lines(s.drop_first());
        lemma_split_lines_nonempty(s.drop_first());
        lemma_join_split(s.drop_first());
        let whole = seq![Seq::<char>::empty()] + rest;
        assert(whole.len() >= 2);
        assert(whole[0] =~= Seq::<char>::empty());
        assert(whole.drop_first() =~= rest);
        assert(join_lines(whole) =~= whole[0] + seq!['\n'] + join_lines(rest));
        assert(join_lines(whole) =~= s);
    } else {
        let rest = split_lines(s.drop_first());
        lemma_split_lines_nonempty(s.drop_first());
        lemma_join_split(s.drop_first());
        let whole = seq![seq![s[0]] + rest[0]] + rest.drop_first();
        if rest.len() == 1 {
            assert(whole.len() == 1);
            assert(join_lines(whole) == whole[0]);
            assert(join_lines(rest) == rest[0]);
            assert(whole[0] =~= seq![s[0]] + s.drop_first());
            assert(seq![s[0]] + s.drop_first() =~= s);
        } else {
            assert(whole.len() >= 2);
            assert(whole[0] == seq![s[0]] + rest[0]);
            assert(whole.drop_first() =~= rest.drop_first());
            assert(join_lines(whole) == whole[0] + seq!['\n'] + join_lines(rest.drop_first()));
            assert(join_lines(rest) == rest[0] + seq!['\n'] + join_lines(rest.drop_first()));
            assert(join_lines(rest) == s.drop_first());
            assert(whole[0] + seq!['\n'] + join_lines(rest.drop_first()) =~= seq![s[0]] + (rest[0]
                + seq!['\n'] + join_lines(rest.drop_first())));
            assert(seq![s[0]] + s.drop_first() =~= s);
        }
    }
}

/// A buffer loaded from any text serializes back to that same text,
/// the empty text included.
pub proof fn lemma_serialize_load_round_trip(s: Seq<char>)
    ensures
        join_lines(rows_of_text(s)) == s,
{
    if s.len() == 0 {
        assert(join_lines(rows_of_text(s)) =~= s);
    } else {
        lemma_join_split(s);
    }
}

/// Appending one more row to a join appends a `'\n'` separator and the row,
/// except onto the empty join, which becomes the row alone.
pub proof fn lemma_join_push(rows: Seq<Seq<char>>, row: Seq<char>)
    ensures
        join_lines(rows.push(row)) == if rows.len() == 0 {
            row
        } else {
            join_lines(rows) + seq!['\n'] + row
        },
    decreases rows.len(),
{
    if rows.len() == 0 {
        assert(rows.push(row).len() == 1);
        assert(join_lines(rows.push(row)) == rows.push(row)[0]);
        assert(rows.push(row)[0] == row);
    } else {
        lemma_join_push(rows.drop_first(), row);
        assert(rows.push(row).drop_first() =~= rows.drop_first().push(row));
        assert(rows.push(row).len() >= 2);
        assert(join_lines(rows.push(row)) == rows[0] + seq!['\n'] + join_lines(
            rows.drop_first().push(row),
        ));
        if rows.len() == 1 {
            assert(join_lines(rows.drop_first().push(row)) == row);
            assert(join_lines(rows) == rows[0]);
        } else {
            assert(join_lines(rows.drop_first().push(row)) == join_lines(rows.drop_first())
                + seq!['\n'] + row);
            assert(rows[0] + seq!['\n'] + (join_lines(rows.drop_first()) + seq!['\n'] + row)
                =~= (rows[0] + seq!['\n'] + join_lines(rows.drop_first())) + seq!['\n'] + row);
        }
    }
}

/// An ordered sequence of editable text rows; row order is display order.
pub struct Buffer {
    pub rows: Vec<String>,
}

impl View for Buffer {
    type V = Seq<Seq<char>>;

    open spec fn view(&self) -> Seq<Seq<char>> {
        self.rows.deep_view()
    }
}

impl Buffer {
    /// A buffer with no rows at all (a valid state: an empty document).
    pub fn empty_buffer() -> (b: Buffer)
        ensures
            b@ == Seq::<Seq<char>>::empty(),
    {
        let b = Buffer { rows: Vec::new() };
        proof {
            assert(b@ =~= Seq::<Seq<char>>::empty());
        }
        b
    }

    /// Wraps an existing sequence of rows.
    pub fn new(rows: Vec<String>) -> (b: Buffer)
        ensures
            b@ == rows.deep_view(),
    {
        Buffer { rows }
    }

    /// The number of rows.
    pub fn len(&self) -> (n: usize)
        ensures
            n == self@.len(),
    {
        self.rows.len()
    }

    /// The number of characters in one row.
    pub fn row_len(&self, i: usize) -> (n: usize)
        requires
            i < self@.len(),
        ensures
            n == self@[i as int].len(),
    {
        self.rows[i].as_str().unicode_len()
    }

    /// A reference to one row.
    pub fn get(&self, i: usize) -> (r: &String)
        requires
            i < self@.len(),
        ensures
            r@ == self@[i as int],
    {
        &self.rows[i]
    }

    /// Inserts a whole row before position `at` (at the end when `at` is
    /// the row count).
    pub fn insert_row(&mut self, at: usize, row: String)
        requires
            at <= old(self)@.len(),
        ensures
            final(self)@ == old(self)@.insert(at as int, row@),
    {
        let ghost r0 = row@;
        self.rows.insert(at, row);
        proof {
            assert(self@ =~= old(self)@.insert(at as int, r0));
        }
    }

    /// Removes the row at position `at` and hands it back.
    pub fn remove_row(&mut self, at: usize) -> (r: String)
        requires
            at < old(self)@.len(),
        ensures
            final(self)@ == old(self)@.remove(at as int),
            r@ == old(self)@[at as int],
    {
        let r = self.rows.remove(at);
        proof {
            assert(self@ =~= old(self)@.remove(at as int));
        }
        r
    }

    /// Inserts a character into row `row` before character position `col`
    /// (at the end of the row when `col` is the row's length).
    pub fn insert_char(&mut self, row: usize, col: usize, ch: char)
        requires
            row < old(self)@.len(),
            col <= old(self)@[row as int].len(),
        ensures
            final(self)@ == old(self)@.update(
                row as int,
                old(self)@[row as int].insert(col as int, ch),
            ),
    {
        let ghost line0 = self@[row as int];
        let n = self.rows[row].as_str().unicode_len();
        let mut s = String::new();
        let mut i: usize = 0;
        while i < col
            invariant
                i <= col <= n,
                n == line0.len(),
                row < self.rows@.len(),
                line0 == self@[row as int],
                s@ == line0.take(i as int),
            decreases col - i,
        {
            let c = self.rows[row].as_str().get_char(i);
            s.push(c);
            proof {
                assert(s@ =~= line0.take(i + 1));
            }
            i = i + 1;
        }
        s.push(ch);
        proof {
            assert(s@ =~= line0.take(col as int).push(ch) + line0.subrange(
                col as int,
                col as int,
            ));
        }
        while i < n
            invariant
                col <= i <= n,
                n == line0.len(),
                row < self.rows@.len(),
                line0 == self@[row as int],
                s@ == line0.take(col as int).push(ch) + line0.subrange(col as int, i as int),
            decreases n - i,
        {
            let c = self.rows[row].as_str().get_char(i);
            s.push(c);
            proof {
                assert(s@ =~= line0.take(col as int).push(ch) + line0.subrange(col as int, i + 1));
            }
            i = i + 1;
        }
        proof {
            assert(s@ =~= line0.insert(col as int, ch));
        }
        self.rows.set(row, s);
        proof {
            assert(self@ =~= old(self)@.update(row as int, line0.insert(col as int, ch)));
        }
    }

    /// Removes the character at character position `col` of row `row`.
    pub fn remove_char(&mut self, row: usize, col: usize)
        requires
            row < old(self)@.len(),
            col < old(self)@[row as int].len(),
        ensures
            final(self)@ == old(self)@.update(row as int, old(self)@[row as int].remove(col as int)),
    {
        let ghost line0 = self@[row as int];
        let n = self.rows[row].as_str().unicode_len();
        let mut s = String::new();
        let mut i: usize = 0;
        while i < col
            invariant
                i <= col < n,
                n == line0.len(),
                row < self.rows@.len(),
                line0 == self@[row as int],
                s@ == line0.take(i as int),
            decreases col - i,
        {
            let c = self.rows[row].as_str().get_char(i);
            s.push(c);
            proof {
                assert(s@ =~= line0.take(i + 1));
            }
            i = i + 1;
        }
        i = i + 1;
        proof {
            assert(s@ =~= line0.take(col as int) + line0.subrange(col + 1, col + 1));
        }
        while i < n
            invariant
                col + 1 <= i <= n,
                n == line0.len(),
                row < self.rows@.len(),
                line0 == self@[row as int],
                s@ == line0.take(col as int) + line0.subrange(col + 1, i as int),
            decreases n - i,
        {
            let c = self.rows[row].as_str().get_char(i);
            s.push(c);
            proof {
                assert(s@ =~= line0.take(col as int) + line0.subrange(col + 1, i + 1));
            }
            i = i + 1;
        }
        proof {
            assert(s@ =~= line0.remove(col as int));
        }
        self.rows.set(row, s);
        proof {
            assert(self@ =~= old(self)@.update(row as int, line0.remove(col as int)));
        }
    }

    /// Splits a text into a buffer: one row per `'\n'`-separated line,
    /// and no rows at all for the empty text.
    pub fn load(text: &str) -> (b: Buffer)
        ensures
            b@ == rows_of_text(text@),
    {
        let n = text.unicode_len();
        let mut rows: Vec<String> = Vec::new();
        if n == 0 {
            let b = Buffer { rows };
            proof {
                assert(b@ =~= rows_of_text(text@));
            }
            return b;
        }
        let mut cur = String::new();
        let mut i: usize = 0;
        proof {
            assert(cur@ + text@.subrange(0int, n as int) =~= text@);
            assert(rows.deep_view() + split_lines(cur@ + text@.subrange(0int, n as int))
                =~= split_lines(text@));
        }
        while i < n
            invariant
                n == text@.len(),
                i <= n,
                forall|k: int| 0 <= k < cur@.len() ==> cur@[k] != '\n',
                split_lines(text@) == rows.deep_view() + split_lines(
                    cur@ + text@.subrange(i as int, n as int),
                ),
            decreases n - i,
        {
            let c = text.get_char(i);
            proof {
                assert(text@.subrange(i as int, n as int)[0] == c);
            }
            if c == '\n' {
                proof {
                    let tail = text@.subrange(i + 1, n as int);
                    assert(text@.subrange(i as int, n as int).drop_first() =~= tail);
                    assert(cur@ + text@.subrange(i as int, n as int) =~= cur@ + (seq!['\n']
                        + tail));
                    lemma_split_lines_prepend(cur@, seq!['\n'] + tail);
                    assert((seq!['\n'] + tail)[0] == '\n');
                    assert((seq!['\n'] + tail).drop_first() =~= tail);
                    assert(split_lines(seq!['\n'] + tail) == seq![Seq::<char>::empty()]
                        + split_lines(tail));
                    assert(cur@ + split_lines(seq!['\n'] + tail)[0] =~= cur@);
                    assert(split_lines(cur@ + (seq!['\n'] + tail)) =~= seq![cur@] + split_lines(
                        tail,
                    ));
                }
                let ghost fin = cur@;
                let ghost rows0 = rows.deep_view();
                rows.push(cur);
                cur = String::new();
                proof {
                    assert(rows.deep_view() =~= rows0.push(fin));
                    assert(rows0.push(fin) + split_lines(text@.subrange(i + 1, n as int)) =~= rows0
                        + (seq![fin] + split_lines(text@.subrange(i + 1, n as int))));
                    assert(cur@ + text@.subrange(i + 1, n as int) =~= text@.subrange(
                        i + 1,
                        n as int,
                    ));
                }
            } else {
                let ghost cur0 = cur@;
                cur.push(c);
                proof {
                    assert(cur@ + text@.subrange(i + 1, n as int) =~= cur0 + text@.subrange(
                        i as int,
                        n as int,
                    ));
                }
            }
            i = i + 1;
        }
        proof {
            assert(cur@ + text@.subrange(n as int, n as int) =~= cur@);
            lemma_split_lines_prepend(cur@, Seq::<char>::empty());
            assert(split_lines(Seq::<char>::empty()) == seq![Seq::<char>::empty()]);
            assert(cur@ + Seq::<char>::empty() =~= cur@);
            assert(split_lines(cur@) =~= seq![cur@]);
            assert(split_lines(text@) =~= rows.deep_view().push(cur@));
        }
        rows.push(cur);
        let b = Buffer { rows };
        proof {
            assert(b@ =~= rows_of_text(text@));
        }
        b
    }

    /// Joins the rows back into one text, a `'\n'` between adjacent rows;
    /// zero rows give the empty text, never a fault.
    pub fn serialize(&self) -> (text: String)
        ensures
            text@ == join_lines(self@),
    {
        let mut out = String::new();
        let mut i: usize = 0;
        while i < self.rows.len()
            invariant
                i <= self.rows.len(),
                out@ == join_lines(self@.take(i as int)),
            decreases self.rows.len() - i,
        {
            let ghost prefix = self@.take(i as int);
            proof {
                lemma_join_push(prefix, self@[i as int]);
                assert(prefix.push(self@[i as int]) =~= self@.take(i + 1));
            }
            if i > 0 {
                out.push('\n');
            }
            out.append(self.rows[i].as_str());
            proof {
                if i == 0 {
                    assert(out@ =~= self@[0int]);
                    assert(out@ =~= join_lines(self@.take(1int)));
                } else {
                    assert(out@ =~= join_lines(prefix) + seq!['\n'] + self@[i as int]);
                    assert(out@ =~= join_lines(self@.take(i + 1)));
                }
            }
            i = i + 1;
        }
        proof {
            assert(self@.take(self.rows.len() as int) =~= self@);
        }
        out
    }
}

} // verus!
