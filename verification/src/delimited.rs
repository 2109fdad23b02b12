//! The persisted format: one record per line, fields separated by a comma,
//! nothing quoted and nothing escaped.

use crate::text::{string_from, to_chars};
use vstd::prelude::*;
use vstd::string::StringExecFns;

verus! {

/// The character between two fields of a record.
pub const DELIMITER: char = ',';

/// The character that ends a record.
pub const LINE_FEED: char = '\n';

/// The character that may stand before the line feed at the end of a record.
pub const CARRIAGE_RETURN: char = '\r';

/// How many characters stand before the first `sep` of `s`: all of them
/// where `s` holds none.
pub open spec fn run_length(s: Seq<char>, sep: char) -> int
    decreases s.len(),
{
    if s.len() == 0 || s[0] == sep {
        0
    } else {
        1 + run_length(s.drop_first(), sep)
    }
}

/// The pieces of `s` between its occurrences of `sep`: one more than there
/// are occurrences.
pub open spec fn split(s: Seq<char>, sep: char) -> Seq<Seq<char>>
    decreases s.len(),
{
    let i = run_length(s, sep);
    if 0 <= i < s.len() {
        seq![s.take(i)] + split(s.skip(i + 1), sep)
    } else {
        seq![s]
    }
}

/// A line without the carriage return that its line ending began with.
pub open spec fn without_return(line: Seq<char>) -> Seq<char> {
    if line.len() > 0 && line.last() == CARRIAGE_RETURN {
        line.drop_last()
    } else {
        line
    }
}

/// The lines of `text`. A line ends at a line feed, or at a carriage return
/// and a line feed; what follows the last line feed is a line of its own
/// unless it is empty.
pub open spec fn lines(text: Seq<char>) -> Seq<Seq<char>>
    decreases text.len(),
{
    let i = run_length(text, LINE_FEED);
    if text.len() == 0 {
        Seq::empty()
    } else if 0 <= i < text.len() {
        seq![without_return(text.take(i))] + lines(text.skip(i + 1))
    } else {
        seq![text]
    }
}

/// The records of `text`: its lines, each split at the delimiter.
pub open spec fn records(text: Seq<char>) -> Seq<Seq<Seq<char>>> {
    lines(text).map_values(|line: Seq<char>| split(line, DELIMITER))
}

/// `fields` with `sep` between each two of them.
pub open spec fn join(fields: Seq<Seq<char>>, sep: char) -> Seq<char>
    decreases fields.len(),
{
    if fields.len() == 0 {
        Seq::empty()
    } else if fields.len() == 1 {
        fields[0]
    } else {
        fields[0] + seq![sep] + join(fields.drop_first(), sep)
    }
}

/// `lines`, each followed by a line feed.
pub open spec fn unlines(lines: Seq<Seq<char>>) -> Seq<char>
    decreases lines.len(),
{
    if lines.len() == 0 {
        Seq::empty()
    } else {
        lines[0] + seq![LINE_FEED] + unlines(lines.drop_first())
    }
}

/// The text of `records`: per record one line of its fields joined by the
/// delimiter.
pub open spec fn written(records: Seq<Seq<Seq<char>>>) -> Seq<char> {
    unlines(records.map_values(|fields: Seq<Seq<char>>| join(fields, DELIMITER)))
}

/// `s` holds no `c`.
pub open spec fn free_of(s: Seq<char>, c: char) -> bool {
    forall|i: int| 0 <= i < s.len() ==> s[i] != c
}

/// Where `s` holds no `sep` before index `k`, and ends there or holds `sep`
/// there, the run before the first `sep` has length `k`.
pub proof fn lemma_run_length(s: Seq<char>, sep: char, k: int)
    requires
        0 <= k <= s.len(),
        forall|i: int| 0 <= i < k ==> s[i] != sep,
        k < s.len() ==> s[k] == sep,
    ensures
        run_length(s, sep) == k,
    decreases k,
{
    if k > 0 {
        let rest = s.drop_first();
        assert forall|i: int| 0 <= i < k - 1 implies rest[i] != sep by {
            assert(rest[i] == s[i + 1]);
        }
        lemma_run_length(rest, sep, k - 1);
    }
}

/// The fields of the characters `chars[from..to]`.
pub fn split_fields(chars: &Vec<char>, from: usize, to: usize) -> (fields: Vec<String>)
    requires
        from <= to <= chars@.len(),
    ensures
        fields.deep_view() == split(chars@.subrange(from as int, to as int), DELIMITER),
{
    let ghost line = chars@.subrange(from as int, to as int);
    let mut fields: Vec<String> = Vec::new();
    let mut start = from;
    for i in from..to
        invariant
            from <= start <= i,
            from <= to <= chars@.len(),
            line == chars@.subrange(from as int, to as int),
            forall|j: int| start <= j < i ==> chars@[j] != DELIMITER,
            fields.deep_view() + split(chars@.subrange(start as int, to as int), DELIMITER)
                == split(line, DELIMITER),
    {
        if chars[i] == DELIMITER {
            let ghost rest = chars@.subrange(start as int, to as int);
            let ghost before = fields.deep_view();
            let field = string_from(chars, start, i);
            fields.push(field);
            proof {
                assert forall|j: int| 0 <= j < i - start implies rest[j] != DELIMITER by {
                    assert(rest[j] == chars@[start + j]);
                }
                lemma_run_length(rest, DELIMITER, i - start);
                assert(rest.take(i - start) =~= chars@.subrange(start as int, i as int));
                assert(rest.skip(i - start + 1) =~= chars@.subrange(i + 1, to as int));
                assert(fields.deep_view() =~= before.push(field@));
                assert(before.push(field@) + split(chars@.subrange(i + 1, to as int), DELIMITER)
                    =~= before + split(rest, DELIMITER));
            }
            start = i + 1;
        }
    }
    let ghost rest = chars@.subrange(start as int, to as int);
    let ghost before = fields.deep_view();
    let field = string_from(chars, start, to);
    fields.push(field);
    proof {
        assert forall|j: int| 0 <= j < to - start implies rest[j] != DELIMITER by {
            assert(rest[j] == chars@[start + j]);
        }
        lemma_run_length(rest, DELIMITER, to - start);
        assert(fields.deep_view() =~= before.push(field@));
        assert(before.push(field@) =~= before + split(rest, DELIMITER));
    }
    fields
}

/// Reads delimited text: the records of its lines.
pub fn parse(text: &str) -> (parsed: Vec<Vec<String>>)
    ensures
        parsed.deep_view() == records(text@),
{
    let chars = to_chars(text);
    let n = chars.len();
    let mut parsed: Vec<Vec<String>> = Vec::new();
    let mut start: usize = 0;
    proof {
        assert(chars@.skip(0) =~= text@);
        assert(parsed.deep_view() + records(text@) =~= records(text@));
    }
    while start < n
        invariant
            start <= n,
            n == chars@.len(),
            chars@ == text@,
            parsed.deep_view() + records(chars@.skip(start as int)) == records(text@),
        decreases n - start,
    {
        let ghost rest = chars@.skip(start as int);
        let ghost before = parsed.deep_view();
        let mut end = start;
        while end < n && chars[end] != LINE_FEED
            invariant
                start <= end <= n,
                n == chars@.len(),
                forall|j: int| start <= j < end ==> chars@[j] != LINE_FEED,
            decreases n - end,
        {
            end += 1;
        }
        proof {
            assert forall|j: int| 0 <= j < end - start implies rest[j] != LINE_FEED by {
                assert(rest[j] == chars@[start + j]);
            }
            lemma_run_length(rest, LINE_FEED, end - start);
        }
        if end < n {
            let stop = if end > start && chars[end - 1] == CARRIAGE_RETURN {
                end - 1
            } else {
                end
            };
            let fields = split_fields(&chars, start, stop);
            parsed.push(fields);
            proof {
                let line = rest.take(end - start);
                assert(line =~= chars@.subrange(start as int, end as int));
                assert(without_return(line) =~= chars@.subrange(start as int, stop as int));
                assert(rest.skip(end - start + 1) =~= chars@.skip(end + 1));
                let tail = lines(chars@.skip(end + 1));
                assert(lines(rest) == seq![without_return(line)] + tail);
                assert(records(rest) =~= seq![split(without_return(line), DELIMITER)] + records(
                    chars@.skip(end + 1),
                ));
                assert(parsed.deep_view() =~= before.push(fields.deep_view()));
                assert(parsed.deep_view() + records(chars@.skip(end + 1))
                    =~= before + records(rest));
            }
            start = end + 1;
        } else {
            let fields = split_fields(&chars, start, end);
            parsed.push(fields);
            proof {
                assert(rest =~= chars@.subrange(start as int, end as int));
                assert(lines(rest) == seq![rest]);
                assert(records(rest) =~= seq![split(rest, DELIMITER)]);
                assert(chars@.skip(end as int).len() == 0);
                assert(records(chars@.skip(end as int)) =~= Seq::empty());
                assert(parsed.deep_view() =~= before.push(fields.deep_view()));
                assert(parsed.deep_view() + records(chars@.skip(end as int))
                    =~= before + records(rest));
            }
            start = end;
        }
    }
    proof {
        assert(chars@.skip(start as int).len() == 0);
        assert(records(chars@.skip(start as int)) =~= Seq::empty());
        assert(parsed.deep_view() + Seq::<Seq<Seq<char>>>::empty() =~= parsed.deep_view());
    }
    parsed
}

/// Joining one more field puts the separator before it, unless it is the
/// first.
pub proof fn lemma_join_push(fields: Seq<Seq<char>>, field: Seq<char>, sep: char)
    ensures
        join(fields.push(field), sep) == (if fields.len() == 0 {
            field
        } else {
            join(fields, sep) + seq![sep] + field
        }),
    decreases fields.len(),
{
    let all = fields.push(field);
    if fields.len() == 0 {
    } else {
        assert(all.drop_first() =~= fields.drop_first().push(field));
        lemma_join_push(fields.drop_first(), field, sep);
        if fields.len() == 1 {
            assert(fields.drop_first().len() == 0);
            assert(join(all, sep) =~= join(fields, sep) + seq![sep] + field);
        } else {
            assert(join(all, sep) =~= join(fields, sep) + seq![sep] + field);
        }
    }
}

/// One more line adds its text and a line feed at the end.
pub proof fn lemma_unlines_push(ls: Seq<Seq<char>>, line: Seq<char>)
    ensures
        unlines(ls.push(line)) == unlines(ls) + line + seq![LINE_FEED],
    decreases ls.len(),
{
    let all = ls.push(line);
    if ls.len() == 0 {
        assert(all.drop_first() =~= Seq::<Seq<char>>::empty());
        assert(unlines(all.drop_first()) =~= Seq::<char>::empty());
        assert(unlines(ls) =~= Seq::<char>::empty());
        assert(all[0] == line);
        assert(unlines(all) =~= unlines(ls) + line + seq![LINE_FEED]);
    } else {
        assert(all.drop_first() =~= ls.drop_first().push(line));
        lemma_unlines_push(ls.drop_first(), line);
        assert(unlines(all) =~= unlines(ls) + line + seq![LINE_FEED]);
    }
}

/// Writes records as delimited text: per record one line of its fields
/// joined by the delimiter.
pub fn write(records: &Vec<Vec<String>>) -> (text: String)
    ensures
        text@ == written(records.deep_view()),
{
    let ghost recs = records.deep_view();
    let ghost joined = recs.map_values(|fields: Seq<Seq<char>>| join(fields, DELIMITER));
    let mut text = String::new();
    let rows = records.len();
    for y in 0..rows
        invariant
            rows == records@.len(),
            recs == records.deep_view(),
            joined == recs.map_values(|fields: Seq<Seq<char>>| join(fields, DELIMITER)),
            text@ == unlines(joined.take(y as int)),
    {
        let record = &records[y];
        let fields = record.len();
        let ghost done = text@;
        let ghost rec = recs[y as int];
        for x in 0..fields
            invariant
                fields == record@.len(),
                rec == record.deep_view(),
                text@ == done + join(rec.take(x as int), DELIMITER),
        {
            let ghost before = text@;
            if x > 0 {
                text.push(DELIMITER);
            }
            text.append(record[x].as_str());
            proof {
                assert(rec[x as int] == record@[x as int]@);
                assert(rec.take(x + 1) =~= rec.take(x as int).push(rec[x as int]));
                lemma_join_push(rec.take(x as int), rec[x as int], DELIMITER);
                assert(text@ =~= done + join(rec.take(x + 1), DELIMITER));
            }
        }
        text.push(LINE_FEED);
        proof {
            assert(rec.take(fields as int) =~= rec);
            assert(joined[y as int] == join(rec, DELIMITER));
            assert(joined.take(y + 1) =~= joined.take(y as int).push(joined[y as int]));
            lemma_unlines_push(joined.take(y as int), joined[y as int]);
            assert(text@ =~= unlines(joined.take(y + 1)));
        }
    }
    assert(joined.take(rows as int) =~= joined);
    text
}

/// A field that the format can hold: it has no delimiter, no line feed and
/// no carriage return.
pub open spec fn plain(field: Seq<char>) -> bool {
    &&& free_of(field, DELIMITER)
    &&& free_of(field, LINE_FEED)
    &&& free_of(field, CARRIAGE_RETURN)
}

/// Records that the format can hold: each has a field, and every field is
/// plain.
pub open spec fn writable(records: Seq<Seq<Seq<char>>>) -> bool {
    forall|r: int|
        0 <= r < records.len() ==> (#[trigger] records[r]).len() >= 1 && forall|f: int|
            0 <= f < records[r].len() ==> plain(#[trigger] records[r][f])
}

/// Joined fields hold a character only where a field or the separator does.
pub proof fn lemma_join_free_of(fields: Seq<Seq<char>>, sep: char, c: char)
    requires
        sep != c,
        forall|f: int| 0 <= f < fields.len() ==> free_of(#[trigger] fields[f], c),
    ensures
        free_of(join(fields, sep), c),
    decreases fields.len(),
{
    if fields.len() == 1 {
        assert(free_of(fields[0], c));
    } else if fields.len() > 1 {
        let rest = fields.drop_first();
        assert forall|f: int| 0 <= f < rest.len() implies free_of(#[trigger] rest[f], c) by {
            assert(rest[f] == fields[f + 1]);
        }
        lemma_join_free_of(rest, sep, c);
        assert(free_of(fields[0], c));
    }
}

/// Splitting what was joined gives the fields back, where there is at least
/// one and none holds the separator.
pub proof fn lemma_split_join(fields: Seq<Seq<char>>, sep: char)
    requires
        fields.len() >= 1,
        forall|f: int| 0 <= f < fields.len() ==> free_of(#[trigger] fields[f], sep),
    ensures
        split(join(fields, sep), sep) == fields,
    decreases fields.len(),
{
    let joined = join(fields, sep);
    let head = fields[0];
    assert(free_of(head, sep));
    if fields.len() == 1 {
        lemma_run_length(joined, sep, joined.len() as int);
        assert(split(joined, sep) =~= fields);
    } else {
        let rest = fields.drop_first();
        assert forall|f: int| 0 <= f < rest.len() implies free_of(#[trigger] rest[f], sep) by {
            assert(rest[f] == fields[f + 1]);
        }
        lemma_split_join(rest, sep);
        lemma_run_length(joined, sep, head.len() as int);
        assert(joined.take(head.len() as int) =~= head);
        assert(joined.skip(head.len() as int + 1) =~= join(rest, sep));
        assert(split(joined, sep) =~= fields);
    }
}

/// Reading the lines of what was written gives the lines back, where none
/// holds a line feed or a carriage return.
pub proof fn lemma_lines_unlines(ls: Seq<Seq<char>>)
    requires
        forall|l: int| 0 <= l < ls.len()
            ==> free_of(#[trigger] ls[l], LINE_FEED) && free_of(ls[l], CARRIAGE_RETURN),
    ensures
        lines(unlines(ls)) == ls,
    decreases ls.len(),
{
    let text = unlines(ls);
    if ls.len() == 0 {
        assert(lines(text) =~= ls);
    } else {
        let head = ls[0];
        let rest = ls.drop_first();
        assert(free_of(head, LINE_FEED) && free_of(head, CARRIAGE_RETURN));
        assert forall|l: int| 0 <= l < rest.len() implies free_of(#[trigger] rest[l], LINE_FEED)
            && free_of(rest[l], CARRIAGE_RETURN) by {
            assert(rest[l] == ls[l + 1]);
        }
        lemma_lines_unlines(rest);
        lemma_run_length(text, LINE_FEED, head.len() as int);
        assert(text.take(head.len() as int) =~= head);
        assert(text.skip(head.len() as int + 1) =~= unlines(rest));
        assert(without_return(head) == head);
        assert(lines(text) =~= ls);
    }
}

/// Reading what was written gives the records back: every record that has
/// a field, and whose fields hold no delimiter, line feed or carriage
/// return, comes out of the text as it went in.
pub proof fn theorem_read_write(recs: Seq<Seq<Seq<char>>>)
    requires
        writable(recs),
    ensures
        records(written(recs)) == recs,
{
    let joined = recs.map_values(|fields: Seq<Seq<char>>| join(fields, DELIMITER));
    assert forall|l: int| 0 <= l < joined.len() implies free_of(#[trigger] joined[l], LINE_FEED)
        && free_of(joined[l], CARRIAGE_RETURN) by {
        let fields = recs[l];
        assert forall|f: int| 0 <= f < fields.len() implies free_of(#[trigger] fields[f], LINE_FEED)
            && free_of(fields[f], CARRIAGE_RETURN) by {
            assert(plain(recs[l][f]));
        }
        lemma_join_free_of(fields, DELIMITER, LINE_FEED);
        lemma_join_free_of(fields, DELIMITER, CARRIAGE_RETURN);
    }
    lemma_lines_unlines(joined);
    assert forall|l: int| 0 <= l < recs.len() implies split(#[trigger] joined[l], DELIMITER)
        == recs[l] by {
        let fields = recs[l];
        assert forall|f: int| 0 <= f < fields.len()
            implies free_of(#[trigger] fields[f], DELIMITER) by {
            assert(plain(recs[l][f]));
        }
        lemma_split_join(fields, DELIMITER);
    }
    assert(records(written(recs)) =~= recs);
}

} // verus!
