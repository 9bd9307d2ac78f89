//! The `::workflow-command::` lines that steps and actions print to their
//! standard output.
//!
//! The shape is `::name key=val,key2=val2::message`, percent-escaped: the name as
//! the message is, the keys as their values are.

use crate::scan::{
    cut, find, index_of, lemma_index_from, parts_of, replace, replaced, split, split_once, trim,
    trimmed,
};
use crate::text::{
    begins, chars_of, is_empty, pairs, slice_text, str_eq, strip_prefix, texts, Text,
};
use vstd::prelude::*;

verus! {

/// A workflow command: its name, its parameters and its message, all decoded.
#[derive(Debug, Clone, PartialEq)]
pub struct Command {
    /// The command name, such as `set-output`, `add-mask` or `warning`.
    pub name: String,
    /// The parameters, in order.
    pub params: Vec<(String, String)>,
    /// The message: everything after the second `::`.
    pub message: String,
}

/// [`Command`] over views.
#[verifier::ext_equal]
pub struct CommandView {
    /// The command name.
    pub name: Text,
    /// The parameters, in order.
    pub params: Seq<(Text, Text)>,
    /// The message.
    pub message: Text,
}

impl View for Command {
    type V = CommandView;

    open spec fn view(&self) -> CommandView {
        CommandView { name: self.name@, params: pairs(self.params@), message: self.message@ }
    }
}

/// The value of the first parameter of a name.
pub open spec fn param_value(params: Seq<(Text, Text)>, key: Text) -> Option<Text> {
    crate::table::lookup(params, key)
}

impl Command {
    /// The value of a named parameter, if present.
    pub fn param(&self, key: &str) -> (r: Option<&str>)
        ensures
            (match r {
                Some(v) => Some(v@),
                None => None,
            }) == param_value(self@.params, key@),
    {
        let ghost all = pairs(self.params@);
        assert(all.skip(0) =~= all);
        let mut i: usize = 0;
        while i < self.params.len()
            invariant
                i <= self.params@.len(),
                all == pairs(self.params@),
                param_value(all, key@) == param_value(all.skip(i as int), key@),
            decreases self.params@.len() - i,
        {
            assert(all.skip(i as int).skip(1) =~= all.skip(i + 1));
            if str_eq(self.params[i].0.as_str(), key) {
                return Some(self.params[i].1.as_str());
            }
            i += 1;
        }
        None
    }
}

/// A message with its escapes decoded, the percent sign last.
pub open spec fn decoded_message(s: Text) -> Text {
    replaced(replaced(replaced(s, "%0D"@, "\r"@), "%0A"@, "\n"@), "%25"@, "%"@)
}

/// A parameter's key or value with its escapes decoded, the percent sign last.
pub open spec fn decoded_property(s: Text) -> Text {
    replaced(
        replaced(
            replaced(replaced(replaced(s, "%0D"@, "\r"@), "%0A"@, "\n"@), "%3A"@, ":"@),
            "%2C"@,
            ","@,
        ),
        "%25"@,
        "%"@,
    )
}

/// The parameters in a list of `key=value` parts; other parts are passed over.
pub open spec fn params_of(parts: Seq<Text>) -> Seq<(Text, Text)>
    decreases parts.len(),
{
    if parts.len() == 0 {
        Seq::empty()
    } else {
        match cut(parts[0], '=') {
            Some(kv) => seq![(decoded_property(trimmed(kv.0)), decoded_property(kv.1))]
                + params_of(parts.skip(1)),
            None => params_of(parts.skip(1)),
        }
    }
}

/// The name and the parameters' text in a command's head.
pub open spec fn head_parts(head: Text) -> (Text, Text) {
    match cut(head, ' ') {
        Some(p) => p,
        None => (head, Seq::empty()),
    }
}

/// The command that a line is, if it is one.
pub open spec fn command(line: Text) -> Option<CommandView> {
    if !begins(line, "::"@) {
        None
    } else {
        let rest = line.skip(2);
        match index_of(rest, "::"@) {
            None => None,
            Some(sep) => {
                let (name, params) = head_parts(rest.take(sep));
                if name.len() == 0 {
                    None
                } else {
                    Some(
                        CommandView {
                            name: decoded_message(name),
                            params: if params.len() == 0 {
                                Seq::empty()
                            } else {
                                params_of(parts_of(params, ','))
                            },
                            message: decoded_message(rest.skip(sep + 2)),
                        },
                    )
                }
            },
        }
    }
}

/// Decode a command message. The percent sign comes last, so an escape that was
/// itself escaped stays as it was.
pub fn decode_message(s: &str) -> (r: String)
    ensures
        r@ == decoded_message(s@),
{
    proof {
        reveal_strlit("%0D");
        reveal_strlit("%0A");
        reveal_strlit("%25");
    }
    let a = replace(s, "%0D", "\r");
    let b = replace(a.as_str(), "%0A", "\n");
    replace(b.as_str(), "%25", "%")
}

/// Decode a parameter's key or value: like a message, but `:` and `,` are escaped too.
pub fn decode_property(s: &str) -> (r: String)
    ensures
        r@ == decoded_property(s@),
{
    proof {
        reveal_strlit("%0D");
        reveal_strlit("%0A");
        reveal_strlit("%3A");
        reveal_strlit("%2C");
        reveal_strlit("%25");
    }
    let a = replace(s, "%0D", "\r");
    let b = replace(a.as_str(), "%0A", "\n");
    let c = replace(b.as_str(), "%3A", ":");
    let d = replace(c.as_str(), "%2C", ",");
    replace(d.as_str(), "%25", "%")
}

/// The parameters in a comma-separated list.
fn parse_params(list: &str) -> (r: Vec<(String, String)>)
    ensures
        pairs(r@) == params_of(parts_of(list@, ',')),
{
    let parts = split(list, ',');
    let ghost all = texts(parts@);
    let mut out: Vec<(String, String)> = Vec::new();
    let mut i: usize = 0;
    assert(all.skip(0) =~= all);
    assert(pairs(out@) + params_of(all) =~= params_of(all));
    while i < parts.len()
        invariant
            i <= parts@.len(),
            all == texts(parts@),
            params_of(all) == pairs(out@) + params_of(all.skip(i as int)),
        decreases parts@.len() - i,
    {
        let ghost here = all.skip(i as int);
        assert(here[0] == parts@[i as int]@);
        assert(here.skip(1) =~= all.skip(i + 1));
        match split_once(parts[i].as_str(), '=') {
            Some(kv) => {
                let k = decode_property(trim(kv.0.as_str()).as_str());
                let v = decode_property(kv.1.as_str());
                let ghost done = pairs(out@);
                out.push((k, v));
                assert(pairs(out@) =~= done + seq![(k@, v@)]);
                assert(done + (seq![(k@, v@)] + params_of(here.skip(1))) =~= pairs(out@)
                    + params_of(here.skip(1)));
            },
            None => {},
        }
        i += 1;
    }
    assert(pairs(out@) + Seq::<(Text, Text)>::empty() =~= pairs(out@));
    out
}

/// Parse one line as a workflow command, or `None` if it is not one.
///
/// A command needs the shape `::name::` with a closing `::`; a bare `::foo` is not
/// a command.
pub fn parse(line: &str) -> (r: Option<Command>)
    ensures
        (match r {
            Some(c) => Some(c@),
            None => None,
        }) == command(line@),
{
    proof {
        reveal_strlit("::");
    }
    let rest = match strip_prefix(line, "::") {
        Some(t) => t,
        None => {
            return None;
        },
    };
    proof {
        lemma_index_from(rest@, "::"@, 0);
    }
    match find(rest.as_str(), "::") {
        None => None,
        Some(sep) => {
            let chars = chars_of(rest.as_str());
            let width = chars.len();
            let head = slice_text(&chars, 0, sep);
            let message = slice_text(&chars, sep + 2, width);
            assert(head@ =~= rest@.take(sep as int));
            assert(message@ =~= rest@.skip(sep + 2));
            let (name, list) = match split_once(head.as_str(), ' ') {
                Some(p) => p,
                None => {
                    let none = String::new();
                    assert(none@ =~= Seq::empty());
                    (head, none)
                },
            };
            if is_empty(name.as_str()) {
                return None;
            }
            let params: Vec<(String, String)> = if is_empty(list.as_str()) {
                Vec::new()
            } else {
                parse_params(list.as_str())
            };
            assert(list@.len() == 0 ==> pairs(params@) =~= Seq::empty());
            Some(
                Command {
                    name: decode_message(name.as_str()),
                    params,
                    message: decode_message(message.as_str()),
                },
            )
        },
    }
}

// ---------------------------------------------------------------------------
// Laws
// ---------------------------------------------------------------------------

/// What does not start with `::`, or is not closed by a second one, is no
/// command, and a command has a name.
pub proof fn law_commands_have_the_shape(line: Text)
    ensures
        !begins(line, "::"@) ==> command(line) is None,
        begins(line, "::"@) && index_of(line.skip(2), "::"@) is None ==> command(line) is None,
        command(line) matches Some(c) ==> c.name.len() > 0,
{
    reveal_strlit("\r");
    reveal_strlit("\n");
    reveal_strlit("%");
    if begins(line, "::"@) && index_of(line.skip(2), "::"@) is Some {
        let name = head_parts(line.skip(2).take(index_of(line.skip(2), "::"@)->Some_0)).0;
        if name.len() > 0 {
            let a = replaced(name, "%0D"@, "\r"@);
            lemma_not_emptied(name, "%0D"@, "\r"@);
            lemma_not_emptied(a, "%0A"@, "\n"@);
            lemma_not_emptied(replaced(a, "%0A"@, "\n"@), "%25"@, "%"@);
        }
    }
}

/// Replacing by something leaves something.
proof fn lemma_not_emptied(s: Text, p: Text, by: Text)
    requires
        s.len() > 0,
        by.len() > 0,
    ensures
        replaced(s, p, by).len() > 0,
{
    lemma_index_from(s, p, 0);
}

/// Characters and the escapes that stand for them.
pub type Escapes = Seq<(char, Text)>;

/// The escapes of messages, in the order in which they are decoded.
pub open spec fn message_escapes() -> Escapes {
    seq![('\r', "%0D"@), ('\n', "%0A"@), ('%', "%25"@)]
}

/// The escapes of parameter values, in the order in which they are decoded.
pub open spec fn property_escapes() -> Escapes {
    seq![('\r', "%0D"@), ('\n', "%0A"@), (':', "%3A"@), (',', "%2C"@), ('%', "%25"@)]
}

/// A character, escaped by those from `i` on.
pub open spec fn escaped_char(c: char, e: Escapes, i: int) -> Text
    decreases e.len() - i,
{
    if !(0 <= i < e.len()) {
        seq![c]
    } else if e[i].0 == c {
        e[i].1
    } else {
        escaped_char(c, e, i + 1)
    }
}

/// A text, escaped by those from `i` on.
pub open spec fn escaped(s: Text, e: Escapes, i: int) -> Text
    decreases s.len(),
{
    if s.len() == 0 {
        Seq::empty()
    } else {
        escaped_char(s[0], e, i) + escaped(s.skip(1), e, i)
    }
}

/// Each escape is a percent sign and two other characters, no two are alike, and
/// the percent sign comes last.
spec fn are_escapes(e: Escapes) -> bool {
    &&& e.len() > 0
    &&& e.last().0 == '%'
    &&& forall|i: int|
        0 <= i < e.len() ==> (#[trigger] e[i]).1.len() == 3 && e[i].1[0] == '%' && e[i].1[1] != '%'
            && e[i].1[2] != '%'
    &&& forall|i: int, j: int|
        0 <= i < j < e.len() ==> (#[trigger] e[i]).0 != (#[trigger] e[j]).0 && e[i].1 != e[j].1
}

/// What stands before the first occurrence stays.
proof fn lemma_replaced_behind(w: Text, p: Text, by: Text, k: int)
    requires
        p.len() > 0,
        0 <= k <= w.len(),
        forall|j: int| 0 <= j < k ==> !#[trigger] crate::text::has_at(w, p, j),
    ensures
        replaced(w, p, by) == w.take(k) + replaced(w.skip(k), p, by),
{
    lemma_index_from(w, p, 0);
    lemma_index_from(w, p, k);
    crate::scan::lemma_index_skip(w, p, k);
    let t = w.skip(k);
    lemma_index_from(t, p, 0);
    match index_of(w, p) {
        Some(i) => {
            assert(i >= k);
            assert(index_of(t, p) == Some(i - k));
            assert(t.skip(i - k + p.len()) =~= w.skip(i + p.len()));
            assert(w.take(k) + (t.take(i - k) + by + replaced(t.skip(i - k + p.len()), p, by))
                =~= w.take(i) + by + replaced(w.skip(i + p.len()), p, by));
        },
        None => {
            assert(index_of(t, p) is None) by {
                if index_of(t, p) is Some {
                    let j = index_of(t, p)->Some_0;
                    assert(crate::text::has_at(w, p, j + k));
                }
            }
            assert(w.take(k) + t =~= w);
        },
    }
}

/// The escape of a character, where it has one.
proof fn lemma_escaped_char(c: char, e: Escapes, i: int)
    requires
        are_escapes(e),
        0 <= i < e.len(),
    ensures
        escaped_char(c, e, i) == seq![c] && c != '%' || exists|j: int|
            i <= j < e.len() && (#[trigger] e[j]).0 == c && escaped_char(c, e, i) == e[j].1,
    decreases e.len() - i,
{
    if e[i].0 != c {
        if i + 1 < e.len() {
            lemma_escaped_char(c, e, i + 1);
        } else {
            assert(e.last() == e[i]);
            assert(escaped_char(c, e, i + 1) == seq![c]);
        }
    } else {
        assert(escaped_char(c, e, i) == e[i].1);
    }
}

/// A character that comes earlier is not escaped by those from `i` on.
proof fn lemma_not_escaped(c: char, e: Escapes, i: int, k: int)
    requires
        are_escapes(e),
        0 <= k < i <= e.len(),
        e[k].0 == c,
    ensures
        escaped_char(c, e, i) == seq![c],
    decreases e.len() - i,
{
    if i < e.len() {
        assert(e[k].0 != e[i].0);
        lemma_not_escaped(c, e, i + 1, k);
    }
}

/// Decoding one escape leaves a text with one escape less.
proof fn lemma_decoded_once(s: Text, e: Escapes, i: int)
    requires
        are_escapes(e),
        0 <= i < e.len(),
    ensures
        replaced(escaped(s, e, i), e[i].1, seq![e[i].0]) == escaped(s, e, i + 1),
    decreases s.len(),
{
    let p = e[i].1;
    let by = seq![e[i].0];
    if s.len() == 0 {
        lemma_index_from(escaped(s, e, i), p, 0);
    } else {
        let c = s[0];
        let code = escaped_char(c, e, i);
        let t = escaped(s.skip(1), e, i);
        let w = code + t;
        lemma_decoded_once(s.skip(1), e, i);
        lemma_index_from(w, p, 0);
        if c == e[i].0 {
            assert(w.subrange(0, 3) =~= p);
            assert(crate::text::has_at(w, p, 0));
            assert(index_of(w, p) == Some(0int));
            assert(w.take(0) =~= Seq::empty());
            assert(w.skip(3) =~= t);
            lemma_not_escaped(c, e, i + 1, i);
            assert(w.take(0) + by + replaced(t, p, by) =~= by + escaped(s.skip(1), e, i + 1));
        } else {
            lemma_escaped_char(c, e, i);
            assert(escaped_char(c, e, i + 1) == code);
            assert forall|j: int| 0 <= j < code.len() implies !#[trigger] crate::text::has_at(
                w,
                p,
                j,
            ) by {
                if crate::text::has_at(w, p, j) {
                    assert(w.subrange(j, j + 3)[0] == w[j]);
                    assert(w[j] == '%');
                    if code == seq![c] && c != '%' {
                        assert(w[j] == c);
                    } else {
                        let k = choose|k: int|
                            i <= k < e.len() && (#[trigger] e[k]).0 == c && code == e[k].1;
                        assert(w[j] == e[k].1[j]);
                        assert(j == 0);
                        assert(w.subrange(0, 3) =~= code);
                        assert(e[i].1 != e[k].1);
                    }
                }
            }
            lemma_replaced_behind(w, p, by, code.len() as int);
            assert(w.take(code.len() as int) =~= code);
            assert(w.skip(code.len() as int) =~= t);
        }
    }
}

/// A text that nothing is escaped in is itself.
proof fn lemma_unescaped(s: Text, e: Escapes)
    ensures
        escaped(s, e, e.len() as int) == s,
    decreases s.len(),
{
    if s.len() > 0 {
        lemma_unescaped(s.skip(1), e);
        assert(seq![s[0]] + s.skip(1) =~= s);
    } else {
        assert(s =~= Seq::empty());
    }
}

/// The escapes and what they decode to, spelled out.
proof fn lemma_escapes()
    ensures
        are_escapes(message_escapes()),
        are_escapes(property_escapes()),
        "\r"@ == seq!['\r'],
        "\n"@ == seq!['\n'],
        ":"@ == seq![':'],
        ","@ == seq![','],
        "%"@ == seq!['%'],
{
    reveal_strlit("%0D");
    reveal_strlit("%0A");
    reveal_strlit("%3A");
    reveal_strlit("%2C");
    reveal_strlit("%25");
    reveal_strlit("\r");
    reveal_strlit("\n");
    reveal_strlit(":");
    reveal_strlit(",");
    reveal_strlit("%");
    assert("%0D"@[1] == '0' && "%0D"@[2] == 'D');
    assert("%0A"@[1] == '0' && "%0A"@[2] == 'A');
    assert("%3A"@[1] == '3' && "%3A"@[2] == 'A');
    assert("%2C"@[1] == '2' && "%2C"@[2] == 'C');
    assert("%25"@[1] == '2' && "%25"@[2] == '5');
    assert("\r"@ =~= seq!['\r']);
    assert("\n"@ =~= seq!['\n']);
    assert(":"@ =~= seq![':']);
    assert(","@ =~= seq![',']);
    assert("%"@ =~= seq!['%']);
}

/// A message that was escaped decodes to what it was.
pub proof fn law_messages_read_back(s: Text)
    ensures
        decoded_message(escaped(s, message_escapes(), 0)) == s,
{
    let e = message_escapes();
    lemma_escapes();
    lemma_decoded_once(s, e, 0);
    lemma_decoded_once(s, e, 1);
    lemma_decoded_once(s, e, 2);
    lemma_unescaped(s, e);
}

/// A parameter value that was escaped decodes to what it was.
pub proof fn law_properties_read_back(s: Text)
    ensures
        decoded_property(escaped(s, property_escapes(), 0)) == s,
{
    let e = property_escapes();
    lemma_escapes();
    lemma_decoded_once(s, e, 0);
    lemma_decoded_once(s, e, 1);
    lemma_decoded_once(s, e, 2);
    lemma_decoded_once(s, e, 3);
    lemma_decoded_once(s, e, 4);
    lemma_unescaped(s, e);
}

/// A character does not occur.
pub open spec fn lacks(s: Text, c: char) -> bool {
    forall|i: int| 0 <= i < s.len() ==> #[trigger] s[i] != c
}

/// An escaped value holds neither colon nor comma.
proof fn lemma_property_lacks(s: Text)
    ensures
        lacks(escaped(s, property_escapes(), 0), ':'),
        lacks(escaped(s, property_escapes(), 0), ','),
    decreases s.len(),
{
    let e = property_escapes();
    if s.len() > 0 {
        lemma_property_lacks(s.skip(1));
        reveal_strlit("%0D");
        reveal_strlit("%0A");
        reveal_strlit("%3A");
        reveal_strlit("%2C");
        reveal_strlit("%25");
        reveal_with_fuel(escaped_char, 6);
        let code = escaped_char(s[0], e, 0);
        assert(lacks(code, ':') && lacks(code, ','));
    }
}

/// Escaping brings in no character that the escapes do not hold.
proof fn lemma_escaped_lacks(s: Text, e: Escapes, c: char)
    requires
        are_escapes(e),
        lacks(s, c),
        forall|i: int| 0 <= i < e.len() ==> lacks((#[trigger] e[i]).1, c),
    ensures
        lacks(escaped(s, e, 0), c),
    decreases s.len(),
{
    if s.len() > 0 {
        assert forall|i: int| 0 <= i < s.skip(1).len() implies #[trigger] s.skip(1)[i] != c by {
            assert(s[i + 1] != c);
        }
        lemma_escaped_lacks(s.skip(1), e, c);
        lemma_escaped_char(s[0], e, 0);
        assert(s[0] != c);
        let code = escaped_char(s[0], e, 0);
        assert(lacks(code, c));
    }
}

/// The escapes hold neither a space, nor a colon, nor what separates a key from
/// its value.
proof fn lemma_codes_lack()
    ensures
        forall|i: int|
            0 <= i < message_escapes().len() ==> lacks((#[trigger] message_escapes()[i]).1, ' ')
                && lacks(message_escapes()[i].1, ':'),
        forall|i: int|
            0 <= i < property_escapes().len() ==> lacks((#[trigger] property_escapes()[i]).1, '='),
{
    reveal_strlit("%0D");
    reveal_strlit("%0A");
    reveal_strlit("%3A");
    reveal_strlit("%2C");
    reveal_strlit("%25");
}

/// Without a character there is no place for it.
proof fn lemma_no_pos(s: Text, c: char)
    requires
        lacks(s, c),
    ensures
        crate::scan::pos_of(s, c) is None,
{
    crate::scan::lemma_pos_from(s, c, 0);
}

/// The first place of a character that follows a text without it.
proof fn lemma_pos_behind(a: Text, c: char, b: Text)
    requires
        lacks(a, c),
    ensures
        crate::scan::pos_of(a + seq![c] + b, c) == Some(a.len() as int),
{
    let w = a + seq![c] + b;
    crate::scan::lemma_pos_from(w, c, 0);
    assert(w[a.len() as int] == c);
}

/// A text as a key or a value is written.
pub open spec fn written_property(s: Text) -> Text {
    escaped(s, property_escapes(), 0)
}

/// A name or a message as it is written.
pub open spec fn written_message(s: Text) -> Text {
    escaped(s, message_escapes(), 0)
}

/// A parameter as it is written.
pub open spec fn written_param(p: (Text, Text)) -> Text {
    written_property(p.0) + seq!['='] + written_property(p.1)
}

/// Parameters as they are written.
pub open spec fn written_params(params: Seq<(Text, Text)>) -> Text
    decreases params.len(),
{
    if params.len() == 0 {
        Seq::empty()
    } else if params.len() == 1 {
        written_param(params[0])
    } else {
        written_param(params[0]) + seq![','] + written_params(params.skip(1))
    }
}

/// A command's name and parameters as they are written.
pub open spec fn written_head(c: CommandView) -> Text {
    if c.params.len() == 0 {
        written_message(c.name)
    } else {
        written_message(c.name) + seq![' '] + written_params(c.params)
    }
}

/// A command as it is written.
pub open spec fn written(c: CommandView) -> Text {
    "::"@ + written_head(c) + "::"@ + written_message(c.message)
}

/// A key that can be told from its value, and from the space around it.
pub open spec fn is_key(k: Text) -> bool {
    lacks(k, '=') && trimmed(written_property(k)) == written_property(k)
}

/// A parameter that is written holds no colon and no comma, and is read back.
proof fn lemma_written_param(p: (Text, Text))
    requires
        is_key(p.0),
    ensures
        lacks(written_param(p), ':'),
        lacks(written_param(p), ','),
        cut(written_param(p), '=') == Some((written_property(p.0), written_property(p.1))),
{
    let k = written_property(p.0);
    let v = written_property(p.1);
    let w = written_param(p);
    lemma_property_lacks(p.0);
    lemma_property_lacks(p.1);
    lemma_escapes();
    lemma_codes_lack();
    lemma_escaped_lacks(p.0, property_escapes(), '=');
    assert forall|i: int| 0 <= i < w.len() implies #[trigger] w[i] != ':' && w[i] != ',' by {
        if i < k.len() {
            assert(w[i] == k[i]);
        } else if i > k.len() {
            assert(w[i] == v[i - k.len() - 1]);
        }
    }
    lemma_pos_behind(k, '=', v);
    assert(w.take(k.len() as int) =~= k);
    assert(w.skip(k.len() as int + 1) =~= v);
}

/// Parameters that are written are read back.
proof fn lemma_written_params(params: Seq<(Text, Text)>)
    requires
        params.len() > 0,
        forall|i: int| 0 <= i < params.len() ==> is_key((#[trigger] params[i]).0),
    ensures
        written_params(params).len() > 0,
        lacks(written_params(params), ':'),
        params_of(parts_of(written_params(params), ',')) == params,
    decreases params.len(),
{
    let p = params[0];
    let one = written_param(p);
    let rest = params.skip(1);
    assert(is_key(params[0].0));
    lemma_written_param(p);
    law_properties_read_back(p.0);
    law_properties_read_back(p.1);
    if params.len() == 1 {
        lemma_no_pos(one, ',');
        assert(parts_of(one, ',') =~= seq![one]);
        assert(seq![one].skip(1) =~= Seq::empty());
        reveal_with_fuel(params_of, 2);
        assert(params_of(seq![one]) =~= params);
    } else {
        assert forall|i: int| 0 <= i < rest.len() implies is_key((#[trigger] rest[i]).0) by {
            assert(rest[i] == params[i + 1]);
        }
        lemma_written_params(rest);
        let more = written_params(rest);
        let w = one + seq![','] + more;
        lemma_pos_behind(one, ',', more);
        assert(w.take(one.len() as int) =~= one);
        assert(w.skip(one.len() as int + 1) =~= more);
        let parts = parts_of(w, ',');
        assert(parts == seq![one] + parts_of(more, ','));
        assert(parts[0] == one);
        assert(parts.skip(1) =~= parts_of(more, ','));
        assert(seq![p] + rest =~= params);
        assert forall|i: int| 0 <= i < w.len() implies #[trigger] w[i] != ':' by {
            if i < one.len() {
                assert(w[i] == one[i]);
            } else if i > one.len() {
                assert(w[i] == more[i - one.len() - 1]);
            }
        }
    }
}

/// A command that is written is read back, with all its parameters, where its name
/// holds none of what ends a name and its keys can be told from their values.
pub proof fn law_commands_read_back(c: CommandView)
    requires
        c.name.len() > 0,
        lacks(c.name, ':'),
        lacks(c.name, ' '),
        forall|i: int| 0 <= i < c.params.len() ==> is_key((#[trigger] c.params[i]).0),
    ensures
        command(written(c)) == Some(c),
{
    reveal_strlit("::");
    let name = written_message(c.name);
    let list = written_params(c.params);
    let m = written_message(c.message);
    let head = written_head(c);
    let line = written(c);
    let rest = line.skip(2);
    lemma_escapes();
    lemma_codes_lack();
    lemma_escaped_lacks(c.name, message_escapes(), ':');
    lemma_escaped_lacks(c.name, message_escapes(), ' ');
    law_messages_read_back(c.name);
    law_messages_read_back(c.message);
    lemma_escaped_char(c.name[0], message_escapes(), 0);
    assert(name.len() > 0);
    if c.params.len() > 0 {
        lemma_written_params(c.params);
    }
    assert(line.subrange(0, 2) =~= "::"@);
    assert(rest =~= head + "::"@ + m);
    assert(lacks(head, ':')) by {
        assert forall|i: int| 0 <= i < head.len() implies #[trigger] head[i] != ':' by {
            if i < name.len() {
                assert(head[i] == name[i]);
            } else if i > name.len() {
                assert(head[i] == list[i - name.len() - 1]);
            }
        }
    }
    let sep = head.len() as int;
    lemma_index_from(rest, "::"@, 0);
    assert(rest.subrange(sep, sep + 2) =~= "::"@);
    assert(crate::text::has_at(rest, "::"@, sep));
    assert forall|j: int| 0 <= j < sep implies !crate::text::has_at(rest, "::"@, j) by {
        if crate::text::has_at(rest, "::"@, j) {
            assert(rest.subrange(j, j + 2)[0] == rest[j]);
            assert(rest[j] == head[j]);
        }
    }
    assert(index_of(rest, "::"@) == Some(sep));
    assert(rest.take(sep) =~= head);
    assert(rest.skip(sep + 2) =~= m);
    if c.params.len() == 0 {
        lemma_no_pos(head, ' ');
        assert(c.params =~= Seq::empty());
    } else {
        lemma_pos_behind(name, ' ', list);
        assert(head.take(name.len() as int) =~= name);
        assert(head.skip(name.len() as int + 1) =~= list);
    }
}

/// Text without a percent sign decodes to itself.
pub proof fn law_plain_text_is_not_decoded(s: Text)
    requires
        !s.contains('%'),
    ensures
        decoded_message(s) == s,
        decoded_property(s) == s,
{
    reveal_strlit("%0D");
    reveal_strlit("%0A");
    reveal_strlit("%25");
    reveal_strlit("%3A");
    reveal_strlit("%2C");
    lemma_without_percent(s, "%0D"@);
    lemma_without_percent(s, "%0A"@);
    lemma_without_percent(s, "%25"@);
    lemma_without_percent(s, "%3A"@);
    lemma_without_percent(s, "%2C"@);
}

proof fn lemma_without_percent(s: Text, p: Text)
    requires
        !s.contains('%'),
        p.len() > 0,
        p[0] == '%',
    ensures
        index_of(s, p) is None,
{
    crate::scan::lemma_index_from(s, p, 0);
    if let Some(i) = index_of(s, p) {
        assert(s.subrange(i, i + p.len())[0] == p[0]);
        assert(s[i] == '%');
    }
}

/// A command is a name between two pairs of colons at the start of a line, and its
/// message is all that stands behind them.
pub proof fn law_commands_name_their_message(name: Text, message: Text)
    requires
        name.len() > 0,
        !name.contains(':'),
        !name.contains(' '),
        !name.contains('%'),
        !message.contains('%'),
    ensures
        command("::"@ + name + "::"@ + message) == Some(
            CommandView { name, params: Seq::empty(), message },
        ),
{
    reveal_strlit("::");
    let line = "::"@ + name + "::"@ + message;
    let rest = name + "::"@ + message;
    assert("::"@ =~= seq![':', ':']);
    assert(line.subrange(0, 2) =~= "::"@);
    assert(line.skip(2) =~= rest);
    crate::scan::lemma_index_from(rest, "::"@, 0);
    let n = name.len() as int;
    assert(rest.subrange(n, n + 2) =~= "::"@);
    assert(crate::text::has_at(rest, "::"@, n));
    if let Some(i) = index_of(rest, "::"@) {
        if i < n {
            assert(rest.subrange(i, i + 2)[0] == ':');
            assert(name[i] == ':');
        }
        assert(i == n);
    }
    assert(rest.take(n) =~= name);
    assert(rest.skip(n + 2) =~= message);
    crate::scan::laws::law_cutting_at_the_first(name, ' ');
    law_plain_text_is_not_decoded(name);
    law_plain_text_is_not_decoded(message);
}

/// A parameter is a key, trimmed, and its value, with an equals sign between them;
/// what has none is passed over.
pub proof fn law_parameters_have_a_key(part: Text, rest: Seq<Text>)
    ensures
        !part.contains('=') ==> params_of(seq![part] + rest) == params_of(rest),
        cut(part, '=') matches Some(kv) ==> params_of(seq![part] + rest) == seq![
            (decoded_property(trimmed(kv.0)), decoded_property(kv.1)),
        ] + params_of(rest),
        params_of(Seq::empty()) == Seq::<(Text, Text)>::empty(),
{
    crate::scan::laws::law_cutting_at_the_first(part, '=');
    assert((seq![part] + rest).skip(1) =~= rest);
    assert((seq![part] + rest)[0] == part);
}

} // verus!
