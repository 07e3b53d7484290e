//! Application configuration: a key/value store for tunables, and the
//! line-oriented configuration grammar that feeds it and the key tree.

use vstd::prelude::*;

use crate::numbers::is_float_text;
use crate::numbers::parse_isize_text;
use crate::numbers::signed_text_value;
use crate::key_codes::code_from_key_name;
use crate::key_codes::KEYCODES;
use crate::key_tree::command_view;
use crate::key_tree::inserted;
use crate::key_tree::KeySequence;
use crate::key_tree::KTree;
use crate::numbers::parse_u16_text;
use crate::numbers::unsigned_text_value;
use crate::text::str_eq;
use crate::text::trim_spec;
use crate::text::trim_str;
use crate::text::ws_prefix_len;
use crate::text::ws_run_from;

verus! {

/// Whether `s` both starts and ends with a double quote (and is long
/// enough for those to be two distinct characters).
pub open spec fn is_dquoted(s: Seq<char>) -> bool {
    s.len() >= 2 && s.first() == '"' && s.last() == '"'
}

/// Relies on quoted_string::strip_dquotes: returns the text between the
/// quotes exactly when the text starts and ends with a double quote, and
/// `None` otherwise.  The one-character text `"` is excluded: on it the
/// call would slice out of bounds.
#[verifier::external_body]
fn strip_dquotes_ext<'a>(text: &'a str) -> (r: Option<&'a str>)
    requires
        text@ != seq!['"'],
    ensures
        match r {
            Some(inner) => is_dquoted(text@) && inner@ == text@.subrange(
                1,
                text@.len() as int - 1,
            ),
            None => !is_dquoted(text@),
        },
{
    quoted_string::strip_dquotes(text)
}

/// The text with one pair of surrounding double quotes removed, if both
/// are present; the text itself otherwise.
pub open spec fn unquoted(s: Seq<char>) -> Seq<char> {
    if is_dquoted(s) {
        s.subrange(1, s.len() as int - 1)
    } else {
        s
    }
}

/// Remove one pair of surrounding double quotes, if there is one.
pub fn strip_quotes_if_any<'a>(text: &'a str) -> (r: &'a str)
    ensures
        r@ == unquoted(text@),
{
    // A lone double quote has no pair to strip.
    if text.unicode_len() == 1 && text.get_char(0) == '"' {
        return text;
    }
    proof {
        assert(text@ != seq!['"']) by {
            if text@ == seq!['"'] {
                assert(text@.len() == 1 && text@[0] == '"');
            }
        }
    }
    match strip_dquotes_ext(text) {
        Some(inner) => inner,
        None => text,
    }
}

/// Content of one entry of the key-value store.
///
/// A value in double quotes is stored as `Text`; the bare word `None` in
/// the configuration file is stored as `Empty`; hexadecimal (`0x`-prefixed)
/// and decimal integers are stored as `Int`; a number with a decimal point
/// is stored as `Float`, keeping the already validated text, which parses
/// as a floating-point number wherever one is needed.
#[derive(Debug)]
pub enum KeyValueData {
    Float(String),
    Int(isize),
    Text(String),
    Empty,
}

impl Clone for KeyValueData {
    fn clone(&self) -> (r: Self)
        ensures
            r == *self,
    {
        match self {
            KeyValueData::Float(t) => KeyValueData::Float(t.clone()),
            KeyValueData::Int(v) => KeyValueData::Int(*v),
            KeyValueData::Text(t) => KeyValueData::Text(t.clone()),
            KeyValueData::Empty => KeyValueData::Empty,
        }
    }
}

/// Why a `key = value` line was rejected.
#[derive(Debug, PartialEq, Eq, Structural)]
pub enum ValueParseError {
    /// The value starts with `0x` but is not a hexadecimal integer in
    /// range.
    BadHex,
    /// The value contains a decimal point but is not a well-formed number.
    BadFloat,
    /// The value is nothing else, and not a decimal integer in range.
    BadInt,
}

/// A simple key-value store holding the configuration tunables.
///
/// Modelled as a map from key text to stored data; writing an existing key
/// replaces its value.
pub struct KeyValueStore {
    entries: Vec<(String, KeyValueData)>,
}

spec fn keys_unique(s: Seq<(String, KeyValueData)>) -> bool {
    forall|i1: int, i2: int|
        0 <= i1 < i2 < s.len() ==> (#[trigger] s[i1]).0@ != (#[trigger] s[i2]).0@
}

spec fn entries_map(s: Seq<(String, KeyValueData)>) -> Map<Seq<char>, KeyValueData>
    decreases s.len(),
{
    if s.len() == 0 {
        Map::<Seq<char>, KeyValueData>::empty()
    } else {
        entries_map(s.drop_last()).insert(s.last().0@, s.last().1)
    }
}

proof fn lemma_entries_map_key(s: Seq<(String, KeyValueData)>, k: Seq<char>)
    ensures
        entries_map(s).contains_key(k) <==> exists|i: int|
            0 <= i < s.len() && (#[trigger] s[i]).0@ == k,
    decreases s.len(),
{
    if s.len() > 0 {
        lemma_entries_map_key(s.drop_last(), k);
        if s.last().0@ == k {
            assert(s[s.len() - 1].0@ == k);
        } else if entries_map(s).contains_key(k) {
            let i = choose|i: int| 0 <= i < s.drop_last().len() && (#[trigger] s.drop_last()[i]).0@
                == k;
            assert(s[i].0@ == k);
        } else if exists|i: int| 0 <= i < s.len() && (#[trigger] s[i]).0@ == k {
            let i = choose|i: int| 0 <= i < s.len() && (#[trigger] s[i]).0@ == k;
            assert(s.drop_last()[i].0@ == k);
        }
    }
}

proof fn lemma_entries_map_value(s: Seq<(String, KeyValueData)>, i: int)
    requires
        keys_unique(s),
        0 <= i < s.len(),
    ensures
        entries_map(s).contains_key(s[i].0@),
        entries_map(s)[s[i].0@] == s[i].1,
    decreases s.len(),
{
    if i == s.len() - 1 {
    } else {
        assert(s[i].0@ != s.last().0@);
        assert(s.drop_last()[i] == s[i]);
        lemma_entries_map_value(s.drop_last(), i);
    }
}

proof fn lemma_entries_map_update(
    s: Seq<(String, KeyValueData)>,
    i: int,
    p: (String, KeyValueData),
)
    requires
        keys_unique(s),
        0 <= i < s.len(),
        p.0@ == s[i].0@,
    ensures
        entries_map(s.update(i, p)) == entries_map(s).insert(p.0@, p.1),
    decreases s.len(),
{
    let s2 = s.update(i, p);
    if i == s.len() - 1 {
        assert(s2.drop_last() =~= s.drop_last());
        assert(entries_map(s2) == entries_map(s.drop_last()).insert(p.0@, p.1));
        assert(entries_map(s).insert(p.0@, p.1) =~= entries_map(s.drop_last()).insert(p.0@, p.1));
    } else {
        assert(s2.drop_last() =~= s.drop_last().update(i, p));
        assert(s.drop_last()[i] == s[i]);
        lemma_entries_map_update(s.drop_last(), i, p);
        assert(s2.last() == s.last());
        assert(p.0@ != s.last().0@);
        assert(entries_map(s2) == entries_map(s.drop_last()).insert(p.0@, p.1).insert(
            s.last().0@,
            s.last().1,
        ));
        assert(entries_map(s.drop_last()).insert(p.0@, p.1).insert(s.last().0@, s.last().1)
            =~= entries_map(s.drop_last()).insert(s.last().0@, s.last().1).insert(p.0@, p.1));
    }
}

/// The store `post` is `pre` with `k` now bound to a value satisfying
/// `d_ok`, and every other key untouched.
pub open spec fn updated(
    pre: Map<Seq<char>, KeyValueData>,
    post: Map<Seq<char>, KeyValueData>,
    k: Seq<char>,
    d_ok: spec_fn(KeyValueData) -> bool,
) -> bool {
    &&& post.contains_key(k) && d_ok(post[k])
    &&& forall|k2: Seq<char>|
        k2 != k ==> (#[trigger] post.contains_key(k2) <==> pre.contains_key(k2))
    &&& forall|k2: Seq<char>| k2 != k && pre.contains_key(k2) ==> #[trigger] post[k2] == pre[k2]
}

impl View for KeyValueStore {
    type V = Map<Seq<char>, KeyValueData>;

    closed spec fn view(&self) -> Map<Seq<char>, KeyValueData> {
        entries_map(self.entries@)
    }
}

impl KeyValueStore {
    pub closed spec fn wf(self) -> bool {
        keys_unique(self.entries@)
    }

    /// Create an empty store.
    pub fn new() -> (r: Self)
        ensures
            r.wf(),
            r@ == Map::<Seq<char>, KeyValueData>::empty(),
    {
        KeyValueStore { entries: Vec::new() }
    }

    /// Bind `key` to `d`, replacing any earlier binding.
    fn set_entry(&mut self, key: &str, d: KeyValueData)
        requires
            old(self).wf(),
        ensures
            final(self).wf(),
            final(self)@ == old(self)@.insert(key@, d),
    {
        let n = self.entries.len();
        let mut i: usize = 0;
        while i < n
            invariant
                self == old(self),
                self.wf(),
                n == self.entries@.len(),
                i <= n,
                forall|j: int| 0 <= j < i ==> (#[trigger] self.entries@[j]).0@ != key@,
            decreases n - i,
        {
            let e = &self.entries[i];
            if str_eq(e.0.as_str(), key) {
                let k = key.to_owned();
                proof {
                    lemma_entries_map_update(self.entries@, i as int, (k, d));
                    assert forall|i1: int, i2: int|
                        0 <= i1 < i2 < self.entries@.len() implies (#[trigger] self.entries@.update(
                        i as int,
                        (k, d),
                    )[i1]).0@ != (#[trigger] self.entries@.update(i as int, (k, d))[i2]).0@ by {
                        assert(self.entries@.update(i as int, (k, d))[i1].0@ == self.entries@[i1].0@);
                        assert(self.entries@.update(i as int, (k, d))[i2].0@ == self.entries@[i2].0@);
                    }
                }
                self.entries.set(i, (k, d));
                return ;
            }
            i = i + 1;
        }
        let k = key.to_owned();
        let ghost pre = self.entries@;
        self.entries.push((k, d));
        proof {
            assert(self.entries@.drop_last() =~= pre);
            assert(entries_map(self.entries@) == entries_map(pre).insert(key@, d));
            assert forall|i1: int, i2: int|
                0 <= i1 < i2 < self.entries@.len() implies (#[trigger] self.entries@[i1]).0@ != (
            #[trigger] self.entries@[i2]).0@ by {
                if i2 == self.entries@.len() - 1 {
                    assert(self.entries@[i1].0@ == pre[i1].0@);
                } else {
                    assert(self.entries@[i1] == pre[i1]);
                    assert(self.entries@[i2] == pre[i2]);
                }
            }
        }
    }

    /// Insert a key/value pair, classifying the value text.
    ///
    /// The stored data is `Text` for a double-quoted value, `Empty` for the
    /// bare word `None`, `Int` for a hexadecimal (`0x`-prefixed, repeated
    /// prefixes stripped) or decimal integer, and `Float` for a number with
    /// a decimal point.  Anything else is rejected and the store is left
    /// unchanged.
    pub fn add(&mut self, key: &str, value: &str) -> (r: Result<(), ValueParseError>)
        requires
            old(self).wf(),
        ensures
            final(self).wf(),
            add_effect(old(self)@, final(self)@, key@, value@, r),
    {
        let n = value.unicode_len();
        let quoted = n >= 2 && value.get_char(0) == '"' && value.get_char(n - 1) == '"';
        if quoted {
            let inner = value.substring_char(1, n - 1);
            self.set_entry(key, KeyValueData::Text(inner.to_owned()));
            return Ok(());
        }
        if n == 4 && value.get_char(0) == 'N' && value.get_char(1) == 'o' && value.get_char(2)
            == 'n' && value.get_char(3) == 'e' {
            proof {
                assert(value@ =~= seq!['N', 'o', 'n', 'e']);
            }
            self.set_entry(key, KeyValueData::Empty);
            return Ok(());
        }
        proof {
            assert(value@ != seq!['N', 'o', 'n', 'e']) by {
                if value@ == seq!['N', 'o', 'n', 'e'] {
                    assert(value@.len() == 4 && value@[0] == 'N' && value@[1] == 'o' && value@[2]
                        == 'n' && value@[3] == 'e');
                }
            }
        }
        if n >= 2 && value.get_char(0) == '0' && value.get_char(1) == 'x' {
            let mut i: usize = 0;
            proof {
                assert(value@.skip(0) =~= value@);
            }
            while n - i >= 2 && value.get_char(i) == '0' && value.get_char(i + 1) == 'x'
                invariant
                    n == value@.len(),
                    i <= n,
                    strip_0x(value@) == strip_0x(value@.skip(i as int)),
                decreases n - i,
            {
                proof {
                    let rest = value@.skip(i as int);
                    assert(rest.len() >= 2 && rest[0] == '0' && rest[1] == 'x');
                    assert(rest.skip(2) =~= value@.skip(i as int + 2));
                }
                i = i + 2;
            }
            proof {
                let rest = value@.skip(i as int);
                assert(!(rest.len() >= 2 && rest[0] == '0' && rest[1] == 'x')) by {
                    if rest.len() >= 2 {
                        assert(rest[0] == value@[i as int]);
                        assert(rest[1] == value@[i as int + 1]);
                    }
                }
                assert(strip_0x(value@) == value@.skip(i as int));
            }
            let digits = value.substring_char(i, n);
            proof {
                assert(digits@ =~= value@.skip(i as int));
            }
            match parse_isize_text(digits, true) {
                Some(x) => {
                    self.set_entry(key, KeyValueData::Int(x));
                    return Ok(());
                },
                None => {
                    return Err(ValueParseError::BadHex);
                },
            }
        }
        let mut i: usize = 0;
        while i < n && value.get_char(i) != '.'
            invariant
                n == value@.len(),
                i <= n,
                forall|j: int| 0 <= j < i ==> value@[j] != '.',
            decreases n - i,
        {
            i = i + 1;
        }
        let has_dot = i < n;
        if has_dot {
            proof {
                assert(value@[i as int] == '.');
                assert(contains_char(value@, '.'));
            }
            if crate::numbers::check_float_text(value) {
                self.set_entry(key, KeyValueData::Float(value.to_owned()));
                return Ok(());
            } else {
                return Err(ValueParseError::BadFloat);
            }
        }
        proof {
            assert(!contains_char(value@, '.'));
        }
        match parse_isize_text(value, false) {
            Some(x) => {
                self.set_entry(key, KeyValueData::Int(x));
                Ok(())
            },
            None => Err(ValueParseError::BadInt),
        }
    }

    /// Retrieve the data stored under a key, or `None` if the key is not
    /// bound.
    pub fn get(&self, key: &str) -> (r: Option<KeyValueData>)
        requires
            self.wf(),
        ensures
            match r {
                Some(d) => self@.contains_key(key@) && self@[key@] == d,
                None => !self@.contains_key(key@),
            },
    {
        let n = self.entries.len();
        let mut i: usize = 0;
        while i < n
            invariant
                self.wf(),
                n == self.entries@.len(),
                i <= n,
                forall|j: int| 0 <= j < i ==> (#[trigger] self.entries@[j]).0@ != key@,
            decreases n - i,
        {
            let e = &self.entries[i];
            if str_eq(e.0.as_str(), key) {
                proof {
                    lemma_entries_map_value(self.entries@, i as int);
                }
                return Some(e.1.clone());
            }
            i = i + 1;
        }
        proof {
            lemma_entries_map_key(self.entries@, key@);
        }
        None
    }

    /// Retrieve the text stored under a key, or `None` if the key is not
    /// bound or holds something other than text.
    pub fn get_str(&self, key: &str) -> (r: Option<&str>)
        requires
            self.wf(),
        ensures
            match r {
                Some(v) => self@.contains_key(key@) && (self@[key@] matches KeyValueData::Text(
                    t,
                ) && t@ == v@),
                None => !self@.contains_key(key@) || !(self@[key@] is Text),
            },
    {
        let n = self.entries.len();
        let mut i: usize = 0;
        while i < n
            invariant
                self.wf(),
                n == self.entries@.len(),
                i <= n,
                forall|j: int| 0 <= j < i ==> (#[trigger] self.entries@[j]).0@ != key@,
            decreases n - i,
        {
            let e = &self.entries[i];
            if str_eq(e.0.as_str(), key) {
                proof {
                    lemma_entries_map_value(self.entries@, i as int);
                }
                match &e.1 {
                    KeyValueData::Text(t) => {
                        return Some(t.as_str());
                    },
                    _ => {
                        return None;
                    },
                }
            }
            i = i + 1;
        }
        proof {
            lemma_entries_map_key(self.entries@, key@);
        }
        None
    }
}

/// `s` with every repetition of a leading `0x` removed, as stripping the
/// prefix repeatedly leaves it.
pub open spec fn strip_0x(s: Seq<char>) -> Seq<char>
    decreases s.len(),
{
    if s.len() >= 2 && s[0] == '0' && s[1] == 'x' {
        strip_0x(s.skip(2))
    } else {
        s
    }
}

/// Whether the character occurs in the sequence.
pub open spec fn contains_char(s: Seq<char>, c: char) -> bool {
    exists|i: int| 0 <= i < s.len() && s[i] == c
}

/// What storing the value text `v` under key `k` does: the exact
/// classification of the value and the resulting store.
pub open spec fn add_effect(
    pre: Map<Seq<char>, KeyValueData>,
    post: Map<Seq<char>, KeyValueData>,
    k: Seq<char>,
    v: Seq<char>,
    r: Result<(), ValueParseError>,
) -> bool {
    if is_dquoted(v) {
        r is Ok && updated(
            pre,
            post,
            k,
            |d: KeyValueData|
                d matches KeyValueData::Text(t) && t@ == v.subrange(1, v.len() as int - 1),
        )
    } else if v == seq!['N', 'o', 'n', 'e'] {
        r is Ok && updated(pre, post, k, |d: KeyValueData| d is Empty)
    } else if v.len() >= 2 && v[0] == '0' && v[1] == 'x' {
        let hv = signed_text_value(strip_0x(v), 16);
        if hv is Some && isize::MIN <= hv->Some_0 <= isize::MAX {
            r is Ok && updated(
                pre,
                post,
                k,
                |d: KeyValueData| d matches KeyValueData::Int(n) && n as int == hv->Some_0,
            )
        } else {
            r == Err::<(), ValueParseError>(ValueParseError::BadHex) && post == pre
        }
    } else if contains_char(v, '.') {
        if is_float_text(v) {
            r is Ok && updated(
                pre,
                post,
                k,
                |d: KeyValueData| d matches KeyValueData::Float(t) && t@ == v,
            )
        } else {
            r == Err::<(), ValueParseError>(ValueParseError::BadFloat) && post == pre
        }
    } else {
        let dv = signed_text_value(v, 10);
        if dv is Some && isize::MIN <= dv->Some_0 <= isize::MAX {
            r is Ok && updated(
                pre,
                post,
                k,
                |d: KeyValueData| d matches KeyValueData::Int(n) && n as int == dv->Some_0,
            )
        } else {
            r == Err::<(), ValueParseError>(ValueParseError::BadInt) && post == pre
        }
    }
}


// ---------------------------------------------------------------------------
// The line grammar of the configuration file.
// ---------------------------------------------------------------------------
/// A line that carries nothing: only whitespace.
pub open spec fn is_blank_line(s: Seq<char>) -> bool {
    trim_spec(s).len() == 0
}

/// A comment line: starting (unindented) with `#`, `;` or `//`.
pub open spec fn is_comment_line(s: Seq<char>) -> bool {
    (s.len() >= 1 && (s[0] == '#' || s[0] == ';')) || (s.len() >= 2 && s[0] == '/' && s[1] == '/')
}

/// The bare sentinel word permitted as a command value.
pub open spec fn quit_word() -> Seq<char> {
    seq!['Q', 'u', 'i', 't']
}

/// The position just after an arrow (one or two of `=` or `-`, then `>`)
/// standing at position `i` of the line, leading whitespace allowed, if
/// the arrow is there.
pub open spec fn arrow_end(s: Seq<char>, i: int) -> Option<int> {
    let a = i + ws_prefix_len(s.skip(i));
    if a < s.len() && (s[a] == '=' || s[a] == '-') {
        if a + 1 < s.len() && (s[a + 1] == '=' || s[a + 1] == '-') {
            if a + 2 < s.len() && s[a + 2] == '>' {
                Some(a + 3)
            } else {
                None
            }
        } else if a + 1 < s.len() && s[a + 1] == '>' {
            Some(a + 2)
        } else {
            None
        }
    } else {
        None
    }
}

/// The command part standing after an arrow that ends at position `e`:
/// after optional whitespace, either the bare word `Quit` or a quoted,
/// non-empty command, reaching the end of the line.
pub open spec fn rhs_of(s: Seq<char>, e: int) -> Option<Seq<char>> {
    let b = e + ws_prefix_len(s.skip(e));
    let rhs = s.skip(b);
    if rhs == quit_word() || (rhs.len() >= 3 && rhs.first() == '"' && rhs.last() == '"') {
        Some(rhs)
    } else {
        None
    }
}

/// The command part of a sequence line split at position `i`, if the rest
/// of the line from `i` is a well-formed arrow and command.
pub open spec fn arrow_cmd(s: Seq<char>, i: int) -> Option<Seq<char>> {
    match arrow_end(s, i) {
        Some(e) => rhs_of(s, e),
        None => None,
    }
}

/// The earliest split position (at least one character into the line)
/// whose suffix is a well-formed arrow and command.
pub open spec fn seq_split_from(s: Seq<char>, i: int) -> Option<int>
    decreases s.len() - i,
{
    if i >= s.len() {
        None
    } else if arrow_cmd(s, i) is Some {
        Some(i)
    } else {
        seq_split_from(s, i + 1)
    }
}

/// A sequence line split into the key-code part and the command part:
/// the shortest non-empty prefix followed by an arrow and a command.
pub open spec fn seq_line_parse(s: Seq<char>) -> Option<(Seq<char>, Seq<char>)> {
    match seq_split_from(s, 1) {
        Some(i) => Some((s.take(i), arrow_cmd(s, i)->Some_0)),
        None => None,
    }
}

fn arrow_end_exec(line: &str, i: usize) -> (r: Option<usize>)
    requires
        i <= line@.len(),
    ensures
        match r {
            Some(e) => arrow_end(line@, i as int) == Some(e as int) && i <= e <= line@.len(),
            None => arrow_end(line@, i as int) is None,
        },
{
    let n = line.unicode_len();
    let w = ws_run_from(line, i);
    let a = i + w;
    if a < n {
        let c = line.get_char(a);
        if c == '=' || c == '-' {
            if a + 1 < n {
                let c1 = line.get_char(a + 1);
                if c1 == '=' || c1 == '-' {
                    if a + 2 < n && line.get_char(a + 2) == '>' {
                        Some(a + 3)
                    } else {
                        None
                    }
                } else if c1 == '>' {
                    Some(a + 2)
                } else {
                    None
                }
            } else {
                None
            }
        } else {
            None
        }
    } else {
        None
    }
}

fn rhs_match(line: &str, e: usize) -> (r: Option<usize>)
    requires
        e <= line@.len(),
    ensures
        match r {
            Some(b) => rhs_of(line@, e as int) == Some(line@.skip(b as int)) && b <= line@.len(),
            None => rhs_of(line@, e as int) is None,
        },
{
    let n = line.unicode_len();
    let w = ws_run_from(line, e);
    let b = e + w;
    let len_r = n - b;
    let is_quit = len_r == 4 && line.get_char(b) == 'Q' && line.get_char(b + 1) == 'u'
        && line.get_char(b + 2) == 'i' && line.get_char(b + 3) == 't';
    proof {
        let rhs = line@.skip(b as int);
        assert(rhs.len() == n - b);
        if rhs == quit_word() {
            assert(rhs[0] == 'Q' && rhs[1] == 'u' && rhs[2] == 'i' && rhs[3] == 't');
            assert(rhs[0] == line@[b as int]);
            assert(rhs[1] == line@[b as int + 1]);
            assert(rhs[2] == line@[b as int + 2]);
            assert(rhs[3] == line@[b as int + 3]);
        }
        if is_quit {
            assert(rhs =~= quit_word());
        }
    }
    if is_quit {
        return Some(b);
    }
    if len_r >= 3 && line.get_char(b) == '"' && line.get_char(n - 1) == '"' {
        proof {
            let rhs = line@.skip(b as int);
            assert(rhs.first() == line@[b as int]);
            assert(rhs.last() == line@[n - 1]);
        }
        Some(b)
    } else {
        proof {
            let rhs = line@.skip(b as int);
            if rhs.len() >= 3 {
                assert(rhs.first() == line@[b as int]);
                assert(rhs.last() == line@[n - 1]);
            }
        }
        None
    }
}

/// Find the earliest sequence-line split: the split position and the
/// position where the command part begins.
fn find_seq_split(line: &str) -> (r: Option<(usize, usize)>)
    ensures
        match r {
            Some(p) => seq_split_from(line@, 1) == Some(p.0 as int) && arrow_cmd(line@, p.0 as int)
                == Some(line@.skip(p.1 as int)) && 1 <= p.0 <= line@.len() && p.1 <= line@.len(),
            None => seq_split_from(line@, 1) is None,
        },
{
    let n = line.unicode_len();
    if n == 0 {
        return None;
    }
    let mut i: usize = 1;
    while i < n
        invariant
            n == line@.len(),
            1 <= i <= n,
            seq_split_from(line@, 1) == seq_split_from(line@, i as int),
        decreases n - i,
    {
        match arrow_end_exec(line, i) {
            Some(e) => {
                match rhs_match(line, e) {
                    Some(b) => {
                        return Some((i, b));
                    },
                    None => {},
                }
            },
            None => {},
        }
        proof {
            assert(arrow_cmd(line@, i as int) is None);
            assert(seq_split_from(line@, i as int) == seq_split_from(line@, i as int + 1));
        }
        i = i + 1;
    }
    None
}


/// An ASCII letter.
pub open spec fn is_alpha_char(c: char) -> bool {
    let v = c as u32;
    (65 <= v <= 90) || (97 <= v <= 122)
}

/// An ASCII letter, digit, or underscore: the characters a key name may
/// continue with.
pub open spec fn is_word_char(c: char) -> bool {
    is_alpha_char(c) || (48 <= c as u32 <= 57) || c == '_'
}

/// Length of the run of word characters starting at position `i`.
pub open spec fn word_run(s: Seq<char>, i: int) -> int
    decreases s.len() - i,
{
    if 0 <= i < s.len() && is_word_char(s[i]) {
        1 + word_run(s, i + 1)
    } else {
        0
    }
}

/// An assignment line split into key and value: a key name (a letter, then
/// word characters), optional whitespace, `=`, optional whitespace, and a
/// non-empty value reaching the end of the line.
pub open spec fn assign_parse(s: Seq<char>) -> Option<(Seq<char>, Seq<char>)> {
    if s.len() == 0 || !is_alpha_char(s[0]) {
        None
    } else {
        let k = 1 + word_run(s, 1);
        let a = k + ws_prefix_len(s.skip(k));
        if a < s.len() && s[a] == '=' {
            let b = a + 1 + ws_prefix_len(s.skip(a + 1));
            if b < s.len() {
                Some((s.take(k), s.skip(b)))
            } else {
                None
            }
        } else {
            None
        }
    }
}

proof fn lemma_word_run_char(s: Seq<char>, i: int, r: int)
    requires
        0 <= i <= i + r <= s.len(),
        forall|j: int| i <= j < i + r ==> is_word_char(#[trigger] s[j]),
        i + r < s.len() ==> !is_word_char(s[i + r]),
    ensures
        word_run(s, i) == r,
    decreases r,
{
    if r > 0 {
        lemma_word_run_char(s, i + 1, r - 1);
    }
}

fn is_word_char_exec(c: char) -> (r: bool)
    ensures
        r == is_word_char(c),
{
    let v = c as u32;
    (65 <= v && v <= 90) || (97 <= v && v <= 122) || (48 <= v && v <= 57) || c == '_'
}

/// Parse an assignment line into its key and its raw value text.
fn parse_assignment(line: &str) -> (r: Option<(String, String)>)
    ensures
        match r {
            Some(p) => (assign_parse(line@) matches Some(q) && p.0@ == q.0 && p.1@ == q.1),
            None => assign_parse(line@) is None,
        },
{
    let n = line.unicode_len();
    if n == 0 {
        return None;
    }
    let c0 = line.get_char(0);
    let v0 = c0 as u32;
    if !((65 <= v0 && v0 <= 90) || (97 <= v0 && v0 <= 122)) {
        return None;
    }
    let mut k: usize = 1;
    while k < n && is_word_char_exec(line.get_char(k))
        invariant
            n == line@.len(),
            1 <= k <= n,
            forall|j: int| 1 <= j < k ==> is_word_char(#[trigger] line@[j]),
        decreases n - k,
    {
        k = k + 1;
    }
    proof {
        lemma_word_run_char(line@, 1, k as int - 1);
    }
    let w = ws_run_from(line, k);
    let a = k + w;
    if a < n && line.get_char(a) == '=' {
        let w2 = ws_run_from(line, a + 1);
        let b = a + 1 + w2;
        if b < n {
            let key = line.substring_char(0, k).to_owned();
            let val = line.substring_char(b, n).to_owned();
            proof {
                assert(key@ =~= line@.take(k as int));
                assert(val@ =~= line@.skip(b as int));
            }
            Some((key, val))
        } else {
            None
        }
    } else {
        None
    }
}

/// The position of the first comma at or after position `i`, or the length
/// of the sequence if there is none.
pub open spec fn comma_pos(s: Seq<char>, i: int) -> int
    decreases s.len() - i,
{
    if !(0 <= i < s.len()) {
        s.len() as int
    } else if s[i] == ',' {
        i
    } else {
        comma_pos(s, i + 1)
    }
}

/// The comma-separated pieces of `s`, in order; a piece may be empty, and
/// a sequence with no comma is one piece.
pub open spec fn split_commas(s: Seq<char>) -> Seq<Seq<char>>
    decreases s.len(),
{
    let p = comma_pos(s, 0);
    if 0 <= p < s.len() {
        seq![s.take(p)] + split_commas(s.skip(p + 1))
    } else {
        seq![s]
    }
}

proof fn lemma_comma_pos_char(s: Seq<char>, i: int, p: int)
    requires
        0 <= i <= p <= s.len(),
        forall|j: int| i <= j < p ==> #[trigger] s[j] != ',',
        p < s.len() ==> s[p] == ',',
    ensures
        comma_pos(s, i) == p,
    decreases p - i,
{
    if i < p {
        lemma_comma_pos_char(s, i + 1, p);
    }
}

/// Split a string at commas and trim each piece.
fn split_trim_commas(part: &str) -> (r: Vec<String>)
    ensures
        r.deep_view() == split_commas(part@).map_values(|t: Seq<char>| trim_spec(t)),
{
    let n = part.unicode_len();
    let mut out: Vec<String> = Vec::new();
    let mut start: usize = 0;
    proof {
        assert(part@.skip(0) =~= part@);
        assert(out.deep_view() =~= Seq::<Seq<char>>::empty());
        assert(Seq::<Seq<char>>::empty() + split_commas(part@).map_values(
            |t: Seq<char>| trim_spec(t),
        ) =~= split_commas(part@).map_values(|t: Seq<char>| trim_spec(t)));
    }
    loop
        invariant
            n == part@.len(),
            start <= n,
            out.deep_view() + split_commas(part@.skip(start as int)).map_values(
                |t: Seq<char>| trim_spec(t),
            ) == split_commas(part@).map_values(|t: Seq<char>| trim_spec(t)),
        decreases n - start,
    {
        let mut q: usize = start;
        while q < n && part.get_char(q) != ','
            invariant
                n == part@.len(),
                start <= q <= n,
                forall|j: int| start <= j < q ==> #[trigger] part@[j] != ',',
            decreases n - q,
        {
            q = q + 1;
        }
        let raw = part.substring_char(start, q);
        let tok = trim_str(raw).to_owned();
        let ghost rest = part@.skip(start as int);
        proof {
            assert forall|j: int| 0 <= j < q - start implies #[trigger] rest[j] != ',' by {
                assert(rest[j] == part@[start + j]);
            }
            if q < n {
                assert(rest[q - start] == part@[q as int]);
            }
            lemma_comma_pos_char(rest, 0, q as int - start as int);
            assert(raw@ =~= rest.take(q as int - start as int));
        }
        let ghost out_pre = out.deep_view();
        out.push(tok);
        proof {
            assert forall|j: int| 0 <= j < out_pre.len() implies out.deep_view()[j] == out_pre[j]
                by {}
            assert(out.deep_view() =~= out_pre.push(tok@));
        }
        if q == n {
            proof {
                assert(split_commas(rest) =~= seq![rest]);
                assert(rest.take(q as int - start as int) =~= rest);
                assert(split_commas(rest).map_values(|t: Seq<char>| trim_spec(t)) =~= seq![
                    trim_spec(rest),
                ]);
                assert(out.deep_view() + Seq::<Seq<char>>::empty().map_values(
                    |t: Seq<char>| trim_spec(t),
                ) =~= out_pre + split_commas(rest).map_values(|t: Seq<char>| trim_spec(t)));
                assert(out.deep_view() =~= split_commas(part@).map_values(
                    |t: Seq<char>| trim_spec(t),
                ));
            }
            return out;
        }
        proof {
            let rest2 = part@.skip(q as int + 1);
            assert(rest.skip(q as int - start as int + 1) =~= rest2);
            assert(split_commas(rest) == seq![rest.take(q as int - start as int)] + split_commas(
                rest2,
            ));
            assert(split_commas(rest).map_values(|t: Seq<char>| trim_spec(t)) =~= seq![
                trim_spec(raw@),
            ] + split_commas(rest2).map_values(|t: Seq<char>| trim_spec(t)));
            assert(out.deep_view() + split_commas(rest2).map_values(|t: Seq<char>| trim_spec(t))
                =~= out_pre + split_commas(rest).map_values(|t: Seq<char>| trim_spec(t)));
        }
        start = q + 1;
    }
}

/// One classified configuration line.
pub enum ConfigLine {
    /// A blank line or a comment: carries nothing.
    Skip,
    /// A sequence line: the trimmed key-code tokens, and the raw command
    /// part (the bare quit word, or the command in its quotes).
    Sequence(Vec<String>, String),
    /// An assignment line: the key and the raw value text.
    Assignment(String, String),
    /// None of the above; reported and skipped.
    Unrecognized,
}

/// Classify one configuration line.
///
/// Blank lines and comments are skipped.  A line with an arrow (`=>` or
/// `->` and their one- or two-dash spellings) followed by a quoted command
/// or the bare quit word is a sequence registration; the part before the
/// arrow is split at commas into key-code tokens.  Otherwise a
/// `key = value` line feeds the key-value store.  Anything else is
/// unrecognized.
pub fn parse_config_line(line: &str) -> (r: ConfigLine)
    ensures
        match r {
            ConfigLine::Skip => is_blank_line(line@) || is_comment_line(line@),
            ConfigLine::Sequence(tokens, rhs) => !is_blank_line(line@) && !is_comment_line(line@)
                && (seq_line_parse(line@) matches Some(p) && tokens.deep_view() == split_commas(
                p.0,
            ).map_values(|t: Seq<char>| trim_spec(t)) && rhs@ == p.1),
            ConfigLine::Assignment(k, v) => !is_blank_line(line@) && !is_comment_line(line@)
                && seq_line_parse(line@) is None && (assign_parse(line@) matches Some(p) && k@
                == p.0 && v@ == p.1),
            ConfigLine::Unrecognized => !is_blank_line(line@) && !is_comment_line(line@)
                && seq_line_parse(line@) is None && assign_parse(line@) is None,
        },
{
    let t = trim_str(line);
    if t.unicode_len() == 0 {
        return ConfigLine::Skip;
    }
    let n = line.unicode_len();
    proof {
        assert(n > 0) by {
            if line@.len() == 0 {
                assert(line@.skip(0) =~= line@);
                assert(trim_spec(line@).len() == 0);
            }
        }
    }
    let c0 = line.get_char(0);
    if c0 == '#' || c0 == ';' {
        return ConfigLine::Skip;
    }
    if c0 == '/' && n >= 2 && line.get_char(1) == '/' {
        return ConfigLine::Skip;
    }
    match find_seq_split(line) {
        Some((i, b)) => {
            let group1 = line.substring_char(0, i);
            proof {
                assert(group1@ =~= line@.take(i as int));
            }
            let tokens = split_trim_commas(group1);
            let rhs = line.substring_char(b, n).to_owned();
            proof {
                assert(rhs@ =~= line@.skip(b as int));
            }
            ConfigLine::Sequence(tokens, rhs)
        },
        None => {
            match parse_assignment(line) {
                Some((k, v)) => ConfigLine::Assignment(k, v),
                None => ConfigLine::Unrecognized,
            }
        },
    }
}


// ---------------------------------------------------------------------------
// Resolving key-code tokens and applying parsed lines.
// ---------------------------------------------------------------------------
/// The token is a symbolic name of the key-code table.
pub open spec fn name_known(t: Seq<char>) -> bool {
    exists|i: int| 0 <= i < KEYCODES@.len() && (#[trigger] KEYCODES@[i]).0@ == t
}

/// The token is the symbolic name of code `c` in the key-code table.
pub open spec fn name_code_is(t: Seq<char>, c: u16) -> bool {
    exists|i: int| 0 <= i < KEYCODES@.len() && (#[trigger] KEYCODES@[i]).0@ == t && KEYCODES@[i].1
        == c
}

/// The token resolves to code `c`: either as a symbolic name, or, when it
/// is no known name, as a decimal number in range.
pub open spec fn token_code_is(t: Seq<char>, c: u16) -> bool {
    name_code_is(t, c) || (!name_known(t) && unsigned_text_value(t, 10) == Some(c as int))
}

/// The token resolves to no code at all: neither a known name nor a
/// decimal number in range.
pub open spec fn token_unresolvable(t: Seq<char>) -> bool {
    !name_known(t) && !(unsigned_text_value(t, 10) matches Some(v) && 0 <= v <= u16::MAX)
}

/// Resolve one key-code token: a symbolic key name, or a raw decimal
/// number.
pub fn resolve_key_token(tok: &str) -> (r: Option<u16>)
    ensures
        match r {
            Some(c) => token_code_is(tok@, c),
            None => token_unresolvable(tok@),
        },
{
    match code_from_key_name(tok) {
        Some(c) => Some(c),
        None => parse_u16_text(tok),
    }
}

/// Resolve a list of key-code tokens into codes.
///
/// A token that resolves to nothing becomes code 0 and is reported in the
/// second list, in order.
pub fn resolve_tokens(tokens: &Vec<String>) -> (r: (Vec<u16>, Vec<String>))
    ensures
        r.0@.len() == tokens.deep_view().len(),
        forall|j: int|
            0 <= j < tokens.deep_view().len() ==> {
                let t = tokens.deep_view()[j];
                if token_unresolvable(t) {
                    r.0@[j] == 0
                } else {
                    token_code_is(t, #[trigger] r.0@[j])
                }
            },
        r.1.deep_view() == tokens.deep_view().filter(|t: Seq<char>| token_unresolvable(t)),
{
    let n = tokens.len();
    let mut codes: Vec<u16> = Vec::new();
    let mut bad: Vec<String> = Vec::new();
    let mut i: usize = 0;
    proof {
        reveal_with_fuel(Seq::filter, 2);
        assert(tokens.deep_view().take(0) =~= Seq::<Seq<char>>::empty());
        assert(bad.deep_view() =~= tokens.deep_view().take(0).filter(
            |t: Seq<char>| token_unresolvable(t),
        ));
    }
    while i < n
        invariant
            n == tokens@.len(),
            tokens.deep_view().len() == n,
            i <= n,
            codes@.len() == i,
            forall|j: int|
                0 <= j < i ==> {
                    let t = tokens.deep_view()[j];
                    if token_unresolvable(t) {
                        codes@[j] == 0
                    } else {
                        token_code_is(t, #[trigger] codes@[j])
                    }
                },
            bad.deep_view() == tokens.deep_view().take(i as int).filter(
                |t: Seq<char>| token_unresolvable(t),
            ),
        decreases n - i,
    {
        let tok = &tokens[i];
        proof {
            assert(tok@ == tokens.deep_view()[i as int]);
        }
        let ghost bad_pre = bad.deep_view();
        match resolve_key_token(tok.as_str()) {
            Some(c) => {
                codes.push(c);
            },
            None => {
                codes.push(0);
                bad.push(tok.clone());
            },
        }
        proof {
            reveal_with_fuel(Seq::filter, 2);
            let pred = |t: Seq<char>| token_unresolvable(t);
            let pre = tokens.deep_view().take(i as int);
            let pre1 = tokens.deep_view().take(i as int + 1);
            assert(pre1.drop_last() =~= pre);
            assert(pre1.last() == tokens.deep_view()[i as int]);
            if token_unresolvable(tokens.deep_view()[i as int]) {
                assert(bad.deep_view() =~= bad_pre.push(tokens.deep_view()[i as int]));
                assert(pre1.filter(pred) == pre.filter(pred).push(pre1.last()));
                assert(bad.deep_view() =~= pre1.filter(pred));
            } else {
                assert(pre1.filter(pred) == pre.filter(pred));
            }
        }
        i = i + 1;
    }
    proof {
        assert(tokens.deep_view().take(n as int) =~= tokens.deep_view());
    }
    (codes, bad)
}

/// What applying one configuration line did.
pub enum LineOutcome {
    /// A blank line or a comment: nothing to do.
    Ignored,
    /// A sequence line was registered in the tree: the resolved codes, and
    /// the tokens that resolved to no code (each was substituted by 0).
    AddedSequence(Vec<u16>, Vec<String>),
    /// An assignment line was stored.
    StoredValue,
    /// An assignment line whose value could not be classified; the store
    /// is unchanged.
    BadValue(ValueParseError),
    /// A line matching no pattern; tree and store are unchanged.
    Unparsed,
}

/// Apply one configuration line to the tree of key sequences and the
/// key-value store.
///
/// A sequence line resolves its tokens (unresolvable ones become code 0
/// and are reported) and registers the sequence with the unquoted, trimmed
/// command.  An assignment line stores its trimmed key and value.  Errors
/// touch nothing and are reported in the outcome; they are never fatal.
pub fn apply_config_line(line: &str, tree: &mut KTree, store: &mut KeyValueStore) -> (r:
    LineOutcome)
    requires
        old(tree).wf(),
        old(store).wf(),
    ensures
        final(tree).wf(),
        final(store).wf(),
        match r {
            LineOutcome::Ignored => *final(tree) == *old(tree) && *final(store) == *old(store) && (
            is_blank_line(line@) || is_comment_line(line@)),
            LineOutcome::AddedSequence(codes, bad) => *final(store) == *old(store) && (
            seq_line_parse(line@) matches Some(p) && {
                let toks = split_commas(p.0).map_values(|t: Seq<char>| trim_spec(t));
                &&& codes@.len() == toks.len()
                &&& forall|j: int|
                    0 <= j < toks.len() ==> {
                        let t = toks[j];
                        if token_unresolvable(t) {
                            codes@[j] == 0
                        } else {
                            token_code_is(t, #[trigger] codes@[j])
                        }
                    }
                &&& bad.deep_view() == toks.filter(|t: Seq<char>| token_unresolvable(t))
                &&& inserted(
                    *old(tree),
                    *final(tree),
                    codes@,
                    Some(unquoted(trim_spec(p.1))),
                )
            }),
            LineOutcome::StoredValue => *final(tree) == *old(tree) && (assign_parse(line@)
                matches Some(p) && add_effect(
                old(store)@,
                final(store)@,
                trim_spec(p.0),
                trim_spec(p.1),
                Ok(()),
            )),
            LineOutcome::BadValue(e) => *final(tree) == *old(tree) && (assign_parse(line@)
                matches Some(p) && add_effect(
                old(store)@,
                final(store)@,
                trim_spec(p.0),
                trim_spec(p.1),
                Err(e),
            )),
            LineOutcome::Unparsed => *final(tree) == *old(tree) && *final(store) == *old(store)
                && !is_blank_line(line@) && !is_comment_line(line@) && seq_line_parse(line@) is None
                && assign_parse(line@) is None,
        },
{
    match parse_config_line(line) {
        ConfigLine::Skip => LineOutcome::Ignored,
        ConfigLine::Sequence(tokens, rhs) => {
            let (codes, bad) = resolve_tokens(&tokens);
            let cmd = strip_quotes_if_any(trim_str(rhs.as_str())).to_owned();
            let ks = KeySequence::from(&codes);
            tree.add(&ks, Some(cmd));
            LineOutcome::AddedSequence(codes, bad)
        },
        ConfigLine::Assignment(k, v) => {
            let kt = trim_str(k.as_str());
            let vt = trim_str(v.as_str());
            match store.add(kt, vt) {
                Ok(_) => LineOutcome::StoredValue,
                Err(e) => LineOutcome::BadValue(e),
            }
        },
        ConfigLine::Unrecognized => LineOutcome::Unparsed,
    }
}

} // verus!
