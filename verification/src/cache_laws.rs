//! What holds of the text of the cache file: a store that is written and
//! read again is the same store.

use vstd::prelude::*;
use crate::cache_text::{
    assigned, feed, feed_all, header, header_line, join, opened, property, property_line, render,
    section_lines, sections_of, Section, ACCESS_KEY_ID, SECRET_ACCESS_KEY, SESSION_TOKEN,
};
use crate::credentials::{
    admitted, distinct_names, entry_of, first_incomplete, lemma_position, load, missing, position,
    recorded, usable, Entry,
};
use crate::expirations::expiration;
use crate::text::{
    first_index, is_whitespace, lemma_first_index, lemma_first_index_is, split_lines, trim,
    trim_end, trim_start, Strip,
};
use crate::time::Timestamp;

verus! {

/// Whether `c` occurs nowhere in `s`.
pub open spec fn free_of(s: Seq<char>, c: char) -> bool {
    forall|i: int| 0 <= i < s.len() ==> s[i] != c
}

/// Whether a name comes back from its header line as it is: it holds no
/// line feed, and neither begins nor ends with a bracket, a space or a
/// double quote.
pub open spec fn plain_name(name: Seq<char>) -> bool {
    &&& free_of(name, '\n')
    &&& name.len() > 0 ==> !Strip::HeaderMarks.holds(name[0]) && !Strip::HeaderMarks.holds(
        name.last(),
    )
}

/// Whether a value comes back from its property line as it is: it holds
/// no line feed, does not begin with a space or a double quote, and does
/// not end with white space or a double quote.
pub open spec fn plain_value(value: Seq<char>) -> bool {
    &&& free_of(value, '\n')
    &&& value.len() > 0 ==> !Strip::ValueMarks.holds(value[0]) && !is_whitespace(value.last())
        && value.last() != '"'
}

/// Whether all that an entry holds comes back from the file as it is.
pub open spec fn plain_entry(e: Entry) -> bool {
    &&& plain_name(e.name)
    &&& plain_value(e.credentials.access_key_id)
    &&& plain_value(e.credentials.secret_access_key)
    &&& e.credentials.session_token matches Some(token) ==> plain_value(token)
}

/// What the section of an entry says.
pub open spec fn section_of(e: Entry) -> Section {
    Section {
        name: e.name,
        access_key_id: Some(e.credentials.access_key_id),
        secret_access_key: Some(e.credentials.secret_access_key),
        session_token: e.credentials.session_token,
    }
}

/// What the sections of `entries` say, in their order.
pub open spec fn sections_for(entries: Seq<Entry>) -> Seq<Section> {
    Seq::new(entries.len(), |i: int| section_of(entries[i]))
}

/// The lines of the sections of `entries`.
pub open spec fn lines_of(entries: Seq<Entry>) -> Seq<Seq<char>>
    decreases entries.len(),
{
    if entries.len() == 0 {
        Seq::empty()
    } else {
        lines_of(entries.drop_last()) + section_lines(entries.last())
    }
}

proof fn lemma_keys()
    ensures
        ACCESS_KEY_ID@.len() == 17,
        SECRET_ACCESS_KEY@.len() == 21,
        SESSION_TOKEN@.len() == 17,
        ACCESS_KEY_ID@[0] == 'a' && ACCESS_KEY_ID@[16] == 'd' && ACCESS_KEY_ID@[4] == 'a',
        SECRET_ACCESS_KEY@[0] == 'a' && SECRET_ACCESS_KEY@[20] == 'y',
        SESSION_TOKEN@[0] == 'a' && SESSION_TOKEN@[16] == 'n' && SESSION_TOKEN@[4] == 's',
        free_of(ACCESS_KEY_ID@, '=') && free_of(ACCESS_KEY_ID@, '\n'),
        free_of(SECRET_ACCESS_KEY@, '=') && free_of(SECRET_ACCESS_KEY@, '\n'),
        free_of(SESSION_TOKEN@, '=') && free_of(SESSION_TOKEN@, '\n'),
{
    reveal_strlit("aws_access_key_id");
    reveal_strlit("aws_secret_access_key");
    reveal_strlit("aws_session_token");
}

proof fn lemma_trim_start_marks(p: Seq<char>, s: Seq<char>, set: Strip)
    requires
        forall|i: int| 0 <= i < p.len() ==> set.holds(p[i]),
    ensures
        trim_start(p + s, set) == trim_start(s, set),
    decreases p.len(),
{
    if p.len() == 0 {
        assert(p + s == s);
    } else {
        assert((p + s).drop_first() == p.drop_first() + s);
        assert((p + s)[0] == p[0]);
        lemma_trim_start_marks(p.drop_first(), s, set);
    }
}

proof fn lemma_trim_end_marks(s: Seq<char>, q: Seq<char>, set: Strip)
    requires
        forall|i: int| 0 <= i < q.len() ==> set.holds(q[i]),
    ensures
        trim_end(s + q, set) == trim_end(s, set),
    decreases q.len(),
{
    if q.len() == 0 {
        assert(s + q == s);
    } else {
        assert((s + q).drop_last() == s + q.drop_last());
        assert((s + q).last() == q.last());
        lemma_trim_end_marks(s, q.drop_last(), set);
    }
}

proof fn lemma_trim_kept(s: Seq<char>, set: Strip)
    requires
        s.len() > 0 ==> !set.holds(s[0]) && !set.holds(s.last()),
    ensures
        trim(s, set) == s,
        trim_start(s, set) == s,
        trim_end(s, set) == s,
{
}

proof fn lemma_first_index_after(a: Seq<char>, b: Seq<char>, c: char)
    requires
        free_of(a, c),
    ensures
        first_index(a + b, c) == a.len() + first_index(b, c),
{
    lemma_first_index(b, c);
    let k = first_index(b, c);
    let s = a + b;
    assert forall|j: int| 0 <= j < a.len() + k implies s[j] != c by {
        if j < a.len() {
            assert(s[j] == a[j]);
        } else {
            assert(s[j] == b[j - a.len()]);
        }
    }
    if a.len() + k < s.len() {
        assert(s[a.len() + k] == b[k]);
    }
    lemma_first_index_is(s, c, a.len() + k);
}

/// A header line is read as the header of its name.
proof fn lemma_header_line(name: Seq<char>)
    requires
        plain_name(name),
    ensures
        trim(header_line(name), Strip::Whitespace) == header_line(name),
        header_line(name).len() > 0,
        header(header_line(name)) == Some(name),
        free_of(header_line(name), '\n'),
{
    let line = header_line(name);
    let set = Strip::HeaderMarks;
    if name.contains(' ') {
        let p = seq!['[', '"'];
        let q = seq!['"', ']'];
        assert(line == p + (name + q));
        assert(line[0] == '[');
        assert(line.last() == ']');
        lemma_trim_kept(line, Strip::Whitespace);
        lemma_trim_start_marks(p, name + q, set);
        assert(name.len() > 0);
        assert((name + q)[0] == name[0]);
        assert(trim_start(name + q, set) == name + q);
        lemma_trim_end_marks(name, q, set);
        assert(trim_end(name, set) == name);
        assert forall|i: int| 0 <= i < line.len() implies line[i] != '\n' by {
            if 2 <= i < 2 + name.len() {
                assert(line[i] == name[i - 2]);
            }
        }
    } else {
        let p = seq!['['];
        let q = seq![']'];
        assert(line == p + (name + q));
        assert(line[0] == '[');
        assert(line.last() == ']');
        lemma_trim_kept(line, Strip::Whitespace);
        lemma_trim_start_marks(p, name + q, set);
        if name.len() > 0 {
            assert((name + q)[0] == name[0]);
            assert(trim_start(name + q, set) == name + q);
            lemma_trim_end_marks(name, q, set);
            assert(trim_end(name, set) == name);
        } else {
            assert(name + q == q);
            lemma_trim_start_marks(q, Seq::<char>::empty(), set);
            assert(q + Seq::<char>::empty() == q);
            assert(trim_start(q, set) == Seq::<char>::empty());
            assert(name == Seq::<char>::empty());
        }
        assert forall|i: int| 0 <= i < line.len() implies line[i] != '\n' by {
            if 1 <= i < 1 + name.len() {
                assert(line[i] == name[i - 1]);
            }
        }
    }
}

/// A property line is read as the property that it was written for.
proof fn lemma_property_line(key: Seq<char>, value: Seq<char>)
    requires
        plain_value(value),
        key.len() > 0,
        key[0] == 'a',
        !is_whitespace(key.last()),
        free_of(key, '='),
        free_of(key, '\n'),
    ensures
        ({
            let line = trim(property_line(key, value), Strip::Whitespace);
            &&& line.len() > 0
            &&& header(line) is None
            &&& property(line) == Some((key, value))
        }),
        free_of(property_line(key, value), '\n'),
{
    let full = property_line(key, value);
    let a = key + seq![' '];
    assert(full == a + (seq!['=', ' '] + value));
    assert(full[0] == key[0]);
    assert forall|i: int| 0 <= i < full.len() implies full[i] != '\n' by {
        if i < key.len() {
            assert(full[i] == key[i]);
        } else if i >= key.len() + 3 {
            assert(full[i] == value[i - key.len() - 3]);
        }
    }
    assert(free_of(a, '=')) by {
        assert forall|i: int| 0 <= i < a.len() implies a[i] != '=' by {
            if i < key.len() {
                assert(a[i] == key[i]);
            }
        }
    }
    assert(trim_start(full, Strip::Whitespace) == full);
    let line = trim(full, Strip::Whitespace);
    if value.len() > 0 {
        assert(full.last() == value.last());
        assert(line == full);
        let b = seq!['=', ' '] + value;
        lemma_first_index_after(a, b, '=');
        assert(b[0] == '=');
        assert(first_index(b, '=') == 0);
        assert(line.take(a.len() as int) == a);
        assert(line.skip(a.len() as int + 1) == seq![' '] + value);
        lemma_trim_start_marks(seq![' '], value, Strip::ValueMarks);
        lemma_trim_kept(value, Strip::ValueMarks);
    } else {
        let short = key + seq![' ', '='];
        assert(full == short + seq![' ']);
        lemma_trim_end_marks(short, seq![' '], Strip::Whitespace);
        assert(short.last() == '=');
        assert(trim_end(short, Strip::Whitespace) == short);
        assert(line == short);
        let b = seq!['='];
        assert(short == a + b);
        lemma_first_index_after(a, b, '=');
        assert(first_index(b, '=') == 0);
        assert(line.take(a.len() as int) == a);
        assert(line.skip(a.len() as int + 1) == Seq::<char>::empty());
        assert(value == Seq::<char>::empty());
    }
    assert(a[0] == key[0]);
    lemma_trim_end_marks(key, seq![' '], Strip::Whitespace);
    assert(trim_start(a, Strip::Whitespace) == a);
    assert(trim_end(key, Strip::Whitespace) == key);
}

proof fn lemma_feed_property(sections: Seq<Section>, key: Seq<char>, value: Seq<char>)
    requires
        sections.len() > 0,
        plain_value(value),
        key == ACCESS_KEY_ID@ || key == SECRET_ACCESS_KEY@ || key == SESSION_TOKEN@,
    ensures
        feed(sections, property_line(key, value)) == sections.update(
            sections.len() - 1,
            assigned(sections.last(), key, value),
        ),
        free_of(property_line(key, value), '\n'),
{
    lemma_keys();
    lemma_property_line(key, value);
}

/// The lines of a section add what the section says to what was read
/// before.
proof fn lemma_feed_section(sections: Seq<Section>, e: Entry)
    requires
        plain_entry(e),
    ensures
        feed_all(sections, section_lines(e)) == sections.push(section_of(e)),
        forall|i: int| 0 <= i < section_lines(e).len() ==> free_of(#[trigger] section_lines(e)[i], '\n'),
{
    lemma_keys();
    let lines = section_lines(e);
    let c = e.credentials;
    lemma_header_line(e.name);
    let s1 = sections.push(opened(e.name));
    assert(feed(sections, lines[0]) == s1);
    lemma_feed_property(s1, ACCESS_KEY_ID@, c.access_key_id);
    let s2 = s1.update(s1.len() - 1, assigned(s1.last(), ACCESS_KEY_ID@, c.access_key_id));
    assert(feed(s1, lines[1]) == s2);
    lemma_feed_property(s2, SECRET_ACCESS_KEY@, c.secret_access_key);
    let s3 = s2.update(s2.len() - 1, assigned(s2.last(), SECRET_ACCESS_KEY@, c.secret_access_key));
    assert(feed(s2, lines[2]) == s3);
    assert(ACCESS_KEY_ID@ != SECRET_ACCESS_KEY@);
    assert(ACCESS_KEY_ID@ != SESSION_TOKEN@);
    assert(SECRET_ACCESS_KEY@ != SESSION_TOKEN@);
    let empty = Seq::<char>::empty();
    assert(trim(empty, Strip::Whitespace) == empty);
    reveal_with_fuel(feed_all, 6);
    let l1 = lines.drop_first();
    let l2 = l1.drop_first();
    let l3 = l2.drop_first();
    let l4 = l3.drop_first();
    assert(l1[0] == lines[1]);
    assert(l2[0] == lines[2]);
    match c.session_token {
        Some(token) => {
            lemma_feed_property(s3, SESSION_TOKEN@, token);
            let s4 = s3.update(s3.len() - 1, assigned(s3.last(), SESSION_TOKEN@, token));
            assert(lines.len() == 5);
            assert(l3[0] == lines[3]);
            assert(l4[0] == lines[4]);
            assert(lines[4] == empty);
            assert(feed(s3, lines[3]) == s4);
            assert(feed(s4, lines[4]) == s4);
            assert(l4.drop_first().len() == 0);
            assert(s4 == sections.push(section_of(e)));
            assert(feed_all(sections, lines) == s4);
        },
        None => {
            assert(lines.len() == 4);
            assert(l3[0] == lines[3]);
            assert(lines[3] == empty);
            assert(feed(s3, lines[3]) == s3);
            assert(l3.drop_first().len() == 0);
            assert(s3 == sections.push(section_of(e)));
            assert(feed_all(sections, lines) == s3);
        },
    }
}

proof fn lemma_feed_all_concat(sections: Seq<Section>, a: Seq<Seq<char>>, b: Seq<Seq<char>>)
    ensures
        feed_all(sections, a + b) == feed_all(feed_all(sections, a), b),
    decreases a.len(),
{
    if a.len() == 0 {
        assert(a + b == b);
    } else {
        assert((a + b)[0] == a[0]);
        assert((a + b).drop_first() == a.drop_first() + b);
        lemma_feed_all_concat(feed(sections, a[0]), a.drop_first(), b);
    }
}

proof fn lemma_join_concat(a: Seq<Seq<char>>, b: Seq<Seq<char>>)
    ensures
        join(a + b) == join(a) + join(b),
    decreases b.len(),
{
    if b.len() == 0 {
        assert(a + b == a);
        assert(join(a) + join(b) == join(a));
    } else {
        assert((a + b).drop_last() == a + b.drop_last());
        assert((a + b).last() == b.last());
        lemma_join_concat(a, b.drop_last());
        assert(join(a) + join(b.drop_last()) + b.last().push('\n') == join(a) + (join(
            b.drop_last(),
        ) + b.last().push('\n')));
    }
}

/// Lines that are joined come apart again, with an empty line at the
/// end.
proof fn lemma_split_join(lines: Seq<Seq<char>>)
    requires
        forall|i: int| 0 <= i < lines.len() ==> free_of(#[trigger] lines[i], '\n'),
    ensures
        split_lines(join(lines)) == lines.push(Seq::<char>::empty()),
    decreases lines.len(),
{
    let empty = Seq::<char>::empty();
    if lines.len() == 0 {
        assert(join(lines) == empty);
        assert(split_lines(empty) == seq![empty]);
        assert(lines.push(empty) == seq![empty]);
    } else {
        let first = lines[0];
        let rest = lines.drop_first();
        assert(lines == seq![first] + rest);
        lemma_join_concat(seq![first], rest);
        reveal_with_fuel(join, 2);
        assert(seq![first].drop_last() == Seq::<Seq<char>>::empty());
        assert(join(seq![first]) == empty + first.push('\n'));
        assert(empty + first.push('\n') == first.push('\n'));
        let text = join(lines);
        assert(text == first.push('\n') + join(rest));
        assert(first.push('\n') + join(rest) == first + (seq!['\n'] + join(rest)));
        lemma_first_index_after(first, seq!['\n'] + join(rest), '\n');
        assert((seq!['\n'] + join(rest))[0] == '\n');
        assert(first_index(text, '\n') == first.len());
        assert(text.take(first.len() as int) == first);
        assert(text.skip(first.len() as int + 1) == join(rest));
        assert forall|i: int| 0 <= i < rest.len() implies free_of(#[trigger] rest[i], '\n') by {
            assert(rest[i] == lines[i + 1]);
        }
        lemma_split_join(rest);
        assert(seq![first] + rest.push(empty) == lines.push(empty));
    }
}

proof fn lemma_lines_of(entries: Seq<Entry>)
    requires
        forall|i: int| 0 <= i < entries.len() ==> plain_entry(#[trigger] entries[i]),
    ensures
        render(entries) == join(lines_of(entries)),
        feed_all(Seq::empty(), lines_of(entries)) == sections_for(entries),
        forall|i: int|
            0 <= i < lines_of(entries).len() ==> free_of(#[trigger] lines_of(entries)[i], '\n'),
    decreases entries.len(),
{
    if entries.len() == 0 {
        assert(sections_for(entries) == Seq::<Section>::empty());
    } else {
        let before = entries.drop_last();
        let e = entries.last();
        assert forall|i: int| 0 <= i < before.len() implies plain_entry(#[trigger] before[i]) by {
            assert(before[i] == entries[i]);
        }
        lemma_lines_of(before);
        lemma_join_concat(lines_of(before), section_lines(e));
        lemma_feed_all_concat(Seq::empty(), lines_of(before), section_lines(e));
        lemma_feed_section(sections_for(before), e);
        assert(sections_for(before).push(section_of(e)) == sections_for(entries));
        let all = lines_of(entries);
        assert forall|i: int| 0 <= i < all.len() implies free_of(#[trigger] all[i], '\n') by {
            if i < lines_of(before).len() {
                assert(all[i] == lines_of(before)[i]);
            } else {
                assert(all[i] == section_lines(e)[i - lines_of(before).len()]);
            }
        }
    }
}

/// The text that is written for entries is read as sections that say
/// what the entries hold: the same names, access keys, secret keys and
/// session tokens, in the same order, where the text can hold them as
/// they are.
pub proof fn lemma_render_then_parse(entries: Seq<Entry>)
    requires
        forall|i: int| 0 <= i < entries.len() ==> plain_entry(#[trigger] entries[i]),
    ensures
        sections_of(render(entries)) == sections_for(entries),
        first_incomplete(sections_of(render(entries))) is None,
{
    lemma_lines_of(entries);
    let lines = lines_of(entries);
    let empty = Seq::<char>::empty();
    lemma_split_join(lines);
    assert(lines.push(empty) == lines + seq![empty]);
    lemma_feed_all_concat(Seq::empty(), lines, seq![empty]);
    let sections = sections_for(entries);
    reveal_with_fuel(feed_all, 2);
    assert(trim(empty, Strip::Whitespace) == empty);
    assert(seq![empty].drop_first().len() == 0);
    assert(feed_all(sections, seq![empty]) == sections);
    lemma_complete(entries);
}

proof fn lemma_complete(entries: Seq<Entry>)
    ensures
        first_incomplete(sections_for(entries)) is None,
    decreases entries.len(),
{
    if entries.len() > 0 {
        lemma_complete(entries.drop_last());
        assert(sections_for(entries).drop_last() == sections_for(entries.drop_last()));
    }
}

proof fn lemma_recorded(entries: Seq<Entry>, name: Seq<char>)
    requires
        distinct_names(entries),
    ensures
        match position(entries, name) {
            Some(i) => expiration(recorded(entries), name) == entries[i].credentials.expires_at,
            None => expiration(recorded(entries), name) is None,
        },
    decreases entries.len(),
{
    if entries.len() > 0 {
        let before = entries.drop_last();
        let last = entries.last();
        assert forall|i: int, j: int| 0 <= i < j < before.len() implies before[i].name
            != before[j].name by {
            assert(entries[i].name != entries[j].name);
        }
        lemma_recorded(before, name);
        lemma_position(before, name);
        lemma_position(entries, name);
        if last.name == name {
            if position(before, name) is Some {
                let k = position(before, name).unwrap();
                assert(entries[k].name != entries[entries.len() - 1].name);
            }
        }
        match last.credentials.expires_at {
            Some(at) => {
                assert(recorded(entries).drop_last() == recorded(before));
            },
            None => {},
        }
        if position(before, name) is Some {
            let k = position(before, name).unwrap();
            assert(before[k] == entries[k]);
        }
    }
}

proof fn lemma_admitted_all(entries: Seq<Entry>, table: Seq<(Seq<char>, i64, u32)>, now: Timestamp)
    requires
        distinct_names(entries),
        forall|i: int|
            0 <= i < entries.len() ==> usable((#[trigger] entries[i]).credentials, now)
                && expiration(table, entries[i].name) == entries[i].credentials.expires_at,
    ensures
        admitted(sections_for(entries), table, now) == entries,
    decreases entries.len(),
{
    if entries.len() > 0 {
        let before = entries.drop_last();
        let last = entries.last();
        assert forall|i: int, j: int| 0 <= i < j < before.len() implies before[i].name
            != before[j].name by {
            assert(entries[i].name != entries[j].name);
        }
        assert forall|i: int| 0 <= i < before.len() implies usable(
            (#[trigger] before[i]).credentials,
            now,
        ) && expiration(table, before[i].name) == before[i].credentials.expires_at by {
            assert(before[i] == entries[i]);
        }
        lemma_admitted_all(before, table, now);
        assert(sections_for(entries).drop_last() == sections_for(before));
        assert(sections_for(entries).last() == section_of(last));
        assert(entry_of(section_of(last), expiration(table, last.name)) == last);
        lemma_position(before, last.name);
        if position(before, last.name) is Some {
            let k = position(before, last.name).unwrap();
            assert(entries[k].name != entries[entries.len() - 1].name);
        }
        assert(before.push(last) == entries);
    }
}

/// A store that is written and read again is the same store: the text of
/// its cache file, read with the side table of its expirations, gives the
/// entries that were written, where the text can hold them as they are
/// and all of them may be used at the time of reading.
pub proof fn lemma_write_then_read(entries: Seq<Entry>, now: Timestamp)
    requires
        distinct_names(entries),
        forall|i: int|
            0 <= i < entries.len() ==> plain_entry(#[trigger] entries[i]) && usable(
                entries[i].credentials,
                now,
            ),
    ensures
        load(render(entries), recorded(entries), now) == Ok::<
            Seq<Entry>,
            (Seq<char>, crate::cache_text::Property),
        >(entries),
{
    lemma_render_then_parse(entries);
    let table = recorded(entries);
    assert forall|i: int| 0 <= i < entries.len() implies usable(
        (#[trigger] entries[i]).credentials,
        now,
    ) && expiration(table, entries[i].name) == entries[i].credentials.expires_at by {
        lemma_recorded(entries, entries[i].name);
        lemma_position(entries, entries[i].name);
        let k = position(entries, entries[i].name).unwrap();
        if k != i {
            assert(entries[k].name != entries[i].name);
        }
    }
    lemma_admitted_all(entries, table, now);
}

} // verus!
