//! The text of the credential cache file.
//!
//! The file is a sequence of sections. A section begins with a header
//! line, the profile's name in square brackets, and goes on with
//! `key = value` lines up to the next header. The name stands in double
//! quotes where it holds a space.

use vstd::prelude::*;
use vstd::slice::slice_subrange;
use vstd::string::StringExecFns;
use crate::credentials::{CredentialsProfile, Entry};
use crate::text::{
    chars_are, chars_of, find_from, first_index, lemma_first_index, split_lines, string_of, trim,
    trimmed, Strip,
};

verus! {

pub const ACCESS_KEY_ID: &'static str = "aws_access_key_id";

pub const SECRET_ACCESS_KEY: &'static str = "aws_secret_access_key";

pub const SESSION_TOKEN: &'static str = "aws_session_token";

/// The properties that a section of the cache file can hold.
#[derive(Clone, Copy, Debug, PartialEq, Eq, Structural)]
pub enum Property {
    AccessKeyId,
    SecretAccessKey,
    SessionToken,
}

impl Property {
    /// The key under which the property stands in the file.
    pub open spec fn key(self) -> Seq<char> {
        match self {
            Property::AccessKeyId => ACCESS_KEY_ID@,
            Property::SecretAccessKey => SECRET_ACCESS_KEY@,
            Property::SessionToken => SESSION_TOKEN@,
        }
    }

    /// The key under which the property stands in the file.
    pub fn name(&self) -> (r: &'static str)
        ensures
            r@ == self.key(),
    {
        match self {
            Property::AccessKeyId => ACCESS_KEY_ID,
            Property::SecretAccessKey => SECRET_ACCESS_KEY,
            Property::SessionToken => SESSION_TOKEN,
        }
    }
}

/// What the file says of one profile: its name and the values of the
/// properties that its section holds.
pub struct Section {
    pub name: Seq<char>,
    pub access_key_id: Option<Seq<char>>,
    pub secret_access_key: Option<Seq<char>>,
    pub session_token: Option<Seq<char>>,
}

/// The name in a header line: a line that begins with `[` is a header,
/// and its name is the line without the brackets, spaces and double
/// quotes at its ends.
pub open spec fn header(line: Seq<char>) -> Option<Seq<char>> {
    if line.len() > 0 && line[0] == '[' {
        Some(trim(line, Strip::HeaderMarks))
    } else {
        None
    }
}

/// The key and the value of a property line. The line is split at its
/// first `=`; the key is what stands before it, without white space at
/// its ends, and the value is what follows, without spaces and double
/// quotes at its ends.
pub open spec fn property(line: Seq<char>) -> Option<(Seq<char>, Seq<char>)> {
    let i = first_index(line, '=');
    if 0 <= i < line.len() {
        Some((trim(line.take(i), Strip::Whitespace), trim(line.skip(i + 1), Strip::ValueMarks)))
    } else {
        None
    }
}

/// A section without properties.
pub open spec fn opened(name: Seq<char>) -> Section {
    Section { name, access_key_id: None, secret_access_key: None, session_token: None }
}

/// The section after `key = value` was read in it. A later value
/// replaces an earlier one; other keys than the three known ones change
/// nothing.
pub open spec fn assigned(s: Section, key: Seq<char>, value: Seq<char>) -> Section {
    if key == ACCESS_KEY_ID@ {
        Section { access_key_id: Some(value), ..s }
    } else if key == SECRET_ACCESS_KEY@ {
        Section { secret_access_key: Some(value), ..s }
    } else if key == SESSION_TOKEN@ {
        Section { session_token: Some(value), ..s }
    } else {
        s
    }
}

/// The sections after one more line was read. White space at the ends
/// of the line does not count and an empty line says nothing. A header
/// opens a section. A property goes to the section that was opened
/// last, and is dropped where none was. Any other line says nothing.
pub open spec fn feed(sections: Seq<Section>, raw: Seq<char>) -> Seq<Section> {
    let line = trim(raw, Strip::Whitespace);
    if line.len() == 0 {
        sections
    } else {
        match header(line) {
            Some(name) => sections.push(opened(name)),
            None => match property(line) {
                Some((key, value)) => if sections.len() > 0 {
                    sections.update(sections.len() - 1, assigned(sections.last(), key, value))
                } else {
                    sections
                },
                None => sections,
            },
        }
    }
}

/// The sections after all of `lines` were read, one after the other.
pub open spec fn feed_all(sections: Seq<Section>, lines: Seq<Seq<char>>) -> Seq<Section>
    decreases lines.len(),
{
    if lines.len() == 0 {
        sections
    } else {
        feed_all(feed(sections, lines[0]), lines.drop_first())
    }
}

/// The sections of a cache file, in the order of their headers.
pub open spec fn sections_of(text: Seq<char>) -> Seq<Section> {
    feed_all(Seq::empty(), split_lines(text))
}

/// A section as the parser holds it.
#[derive(Debug)]
pub struct RawSection {
    pub name: String,
    pub access_key_id: Option<String>,
    pub secret_access_key: Option<String>,
    pub session_token: Option<String>,
}

impl View for RawSection {
    type V = Section;

    open spec fn view(&self) -> Section {
        Section {
            name: self.name@,
            access_key_id: crate::credentials::optional_text(self.access_key_id),
            secret_access_key: crate::credentials::optional_text(self.secret_access_key),
            session_token: crate::credentials::optional_text(self.session_token),
        }
    }
}

/// A key and a value of a property line.
pub struct KeyValue<'a>(pub &'a [char], pub &'a [char]);

/// Reads a header line.
pub fn header_of<'a>(line: &'a [char]) -> (r: Option<&'a [char]>)
    ensures
        match r {
            Some(name) => header(line@) == Some(name@),
            None => header(line@) is None,
        },
{
    if line.len() > 0 && line[0] == '[' {
        Some(trimmed(line, Strip::HeaderMarks))
    } else {
        None
    }
}

/// Reads a property line.
pub fn property_of<'a>(line: &'a [char]) -> (r: Option<KeyValue<'a>>)
    ensures
        match r {
            Some(kv) => property(line@) == Some((kv.0@, kv.1@)),
            None => property(line@) is None,
        },
{
    let i = find_from(line, '=', 0);
    assert(line@.skip(0) == line@);
    if i < line.len() {
        let before = slice_subrange(line, 0, i);
        let after = slice_subrange(line, i + 1, line.len());
        assert(before@ == line@.take(i as int));
        assert(after@ == line@.skip(i + 1));
        Some(KeyValue(trimmed(before, Strip::Whitespace), trimmed(after, Strip::ValueMarks)))
    } else {
        None
    }
}

/// The name that a header line gives, if `line` is one.
pub fn read_profile_name(line: &str) -> (r: Option<String>)
    ensures
        crate::credentials::optional_text(r) == header(line@),
{
    let chars = chars_of(line);
    match header_of(chars.as_slice()) {
        Some(name) => Some(string_of(name)),
        None => None,
    }
}

/// The key and the value that a property line gives, if `line` is one.
pub fn read_property(line: &str) -> (r: Option<(String, String)>)
    ensures
        match r {
            Some(kv) => property(line@) == Some((kv.0@, kv.1@)),
            None => property(line@) is None,
        },
{
    let chars = chars_of(line);
    match property_of(chars.as_slice()) {
        Some(kv) => Some((string_of(kv.0), string_of(kv.1))),
        None => None,
    }
}

fn assign(section: &mut RawSection, key: &[char], value: &[char])
    ensures
        final(section)@ == assigned(old(section)@, key@, value@),
{
    if chars_are(key, ACCESS_KEY_ID) {
        section.access_key_id = Some(string_of(value));
    } else if chars_are(key, SECRET_ACCESS_KEY) {
        section.secret_access_key = Some(string_of(value));
    } else if chars_are(key, SESSION_TOKEN) {
        section.session_token = Some(string_of(value));
    }
}

fn feed_line(sections: &mut Vec<RawSection>, raw: &[char])
    ensures
        crate::credentials::views(final(sections)@) == feed(
            crate::credentials::views(old(sections)@),
            raw@,
        ),
{
    let ghost before = crate::credentials::views(sections@);
    let line = trimmed(raw, Strip::Whitespace);
    if line.len() == 0 {
        return ;
    }
    match header_of(line) {
        Some(name) => {
            let section = RawSection {
                name: string_of(name),
                access_key_id: None,
                secret_access_key: None,
                session_token: None,
            };
            sections.push(section);
            assert(crate::credentials::views(sections@) == before.push(opened(name@)));
        },
        None => {
            match property_of(line) {
                Some(kv) => {
                    if sections.len() > 0 {
                        let mut last = sections.pop().unwrap();
                        assign(&mut last, kv.0, kv.1);
                        sections.push(last);
                        assert(crate::credentials::views(sections@) == before.update(
                            before.len() - 1,
                            assigned(before.last(), kv.0@, kv.1@),
                        ));
                    }
                },
                None => {},
            }
        },
    }
}

/// Reads the sections of a cache file.
pub fn parse_sections(text: &[char]) -> (r: Vec<RawSection>)
    ensures
        crate::credentials::views(r@) == sections_of(text@),
{
    let mut sections: Vec<RawSection> = Vec::new();
    let mut at: usize = 0;
    let n = text.len();
    assert(text@.skip(0) == text@);
    assert(crate::credentials::views(sections@) == Seq::<Section>::empty());
    loop
        invariant_except_break
            at <= n,
            n == text.len(),
            sections_of(text@) == feed_all(
                crate::credentials::views(sections@),
                split_lines(text@.skip(at as int)),
            ),
        ensures
            crate::credentials::views(sections@) == sections_of(text@),
        decreases n - at,
    {
        let end = find_from(text, '\n', at);
        let ghost rest = text@.skip(at as int);
        let ghost before = crate::credentials::views(sections@);
        let line = slice_subrange(text, at, end);
        proof {
            lemma_first_index(rest, '\n');
            assert(line@ == rest.take(end - at));
        }
        feed_line(&mut sections, line);
        if end >= n {
            proof {
                assert(rest.take(end - at) == rest);
                assert(split_lines(rest) == seq![rest]);
                assert(seq![rest].drop_first() == Seq::<Seq<char>>::empty());
                assert(feed_all(before, seq![rest]) == feed_all(
                    feed(before, rest),
                    Seq::<Seq<char>>::empty(),
                ));
            }
            break ;
        }
        proof {
            let tail = split_lines(rest.skip(end - at + 1));
            assert(rest.skip(end - at + 1) == text@.skip(end + 1));
            assert(split_lines(rest) == seq![line@] + tail);
            assert((seq![line@] + tail).drop_first() == tail);
        }
        at = end + 1;
    }
    sections
}

/// The header line of the section of `name`.
pub open spec fn header_line(name: Seq<char>) -> Seq<char> {
    if name.contains(' ') {
        seq!['[', '"'] + name + seq!['"', ']']
    } else {
        seq!['['] + name + seq![']']
    }
}

/// The line that gives `value` to `key`.
pub open spec fn property_line(key: Seq<char>, value: Seq<char>) -> Seq<char> {
    key + seq![' ', '=', ' '] + value
}

/// The lines of the section of one entry: the header, the two keys, the
/// session token where there is one, and an empty line.
pub open spec fn section_lines(e: Entry) -> Seq<Seq<char>> {
    let head = seq![
        header_line(e.name),
        property_line(ACCESS_KEY_ID@, e.credentials.access_key_id),
        property_line(SECRET_ACCESS_KEY@, e.credentials.secret_access_key),
    ];
    match e.credentials.session_token {
        Some(token) => head.push(property_line(SESSION_TOKEN@, token)).push(Seq::empty()),
        None => head.push(Seq::empty()),
    }
}

/// The text made of `lines`, each ended by a line feed.
pub open spec fn join(lines: Seq<Seq<char>>) -> Seq<char>
    decreases lines.len(),
{
    if lines.len() == 0 {
        Seq::empty()
    } else {
        join(lines.drop_last()) + lines.last().push('\n')
    }
}

/// The text of the cache file that holds `entries`: their sections, one
/// after the other.
pub open spec fn render(entries: Seq<Entry>) -> Seq<char>
    decreases entries.len(),
{
    if entries.len() == 0 {
        Seq::empty()
    } else {
        render(entries.drop_last()) + join(section_lines(entries.last()))
    }
}

fn write_property(out: &mut String, key: &str, value: &str)
    ensures
        final(out)@ == old(out)@ + property_line(key@, value@).push('\n'),
{
    out.append(key);
    out.push(' ');
    out.push('=');
    out.push(' ');
    out.append(value);
    out.push('\n');
    assert(out@ == old(out)@ + property_line(key@, value@).push('\n'));
}

/// Appends the section of `entry` to `out`.
pub fn write_section(out: &mut String, entry: &CredentialsProfile)
    ensures
        final(out)@ == old(out)@ + join(section_lines(entry@)),
{
    let ghost lines = section_lines(entry@);
    let name = entry.profile_name.as_str();
    if crate::text::contains_char(name, ' ') {
        out.push('[');
        out.push('"');
        out.append(name);
        out.push('"');
        out.push(']');
    } else {
        out.push('[');
        out.append(name);
        out.push(']');
    }
    out.push('\n');
    assert(out@ == old(out)@ + header_line(entry@.name).push('\n'));
    write_property(out, ACCESS_KEY_ID, entry.credentials.access_key_id.as_str());
    write_property(out, SECRET_ACCESS_KEY, entry.credentials.secret_access_key.as_str());
    match &entry.credentials.session_token {
        Some(token) => {
            write_property(out, SESSION_TOKEN, token.as_str());
        },
        None => {},
    }
    out.push('\n');
    proof {
        reveal_with_fuel(join, 6);
        assert(lines.drop_last().drop_last().drop_last().drop_last().len() <= 1);
        let a = header_line(entry@.name).push('\n');
        let b = property_line(ACCESS_KEY_ID@, entry@.credentials.access_key_id).push('\n');
        let c = property_line(SECRET_ACCESS_KEY@, entry@.credentials.secret_access_key).push(
            '\n',
        );
        let e = Seq::<char>::empty().push('\n');
        match entry@.credentials.session_token {
            Some(token) => {
                let d = property_line(SESSION_TOKEN@, token).push('\n');
                assert(join(lines) == Seq::<char>::empty() + a + b + c + d + e);
                assert(out@ == old(out)@ + a + b + c + d + e);
                assert(old(out)@ + a + b + c + d + e == old(out)@ + (Seq::<char>::empty() + a + b
                    + c + d + e));
            },
            None => {
                assert(join(lines) == Seq::<char>::empty() + a + b + c + e);
                assert(out@ == old(out)@ + a + b + c + e);
                assert(old(out)@ + a + b + c + e == old(out)@ + (Seq::<char>::empty() + a + b + c
                    + e));
            },
        }
    }
}

/// The text of the cache file that holds `entries`.
pub fn render_entries(entries: &Vec<CredentialsProfile>) -> (r: String)
    ensures
        r@ == render(crate::credentials::views(entries@)),
{
    let mut out = String::new();
    let mut i: usize = 0;
    let ghost all = crate::credentials::views(entries@);
    while i < entries.len()
        invariant
            i <= entries.len(),
            all == crate::credentials::views(entries@),
            out@ == render(all.take(i as int)),
        decreases entries.len() - i,
    {
        assert(all.take(i + 1).drop_last() == all.take(i as int));
        write_section(&mut out, &entries[i]);
        i += 1;
    }
    assert(all.take(i as int) == all);
    out
}

} // verus!
