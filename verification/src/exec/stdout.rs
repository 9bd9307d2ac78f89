//! What a step prints: workflow commands are taken out, the rest is passed on
//! with secrets masked.

use crate::exec::mask::{
    add_mask, all_maskable, is_maskable, mask_line, maskable, masked, masks_of, secret_masks,
    values_of, with_mask,
};
use crate::strmap::{map_entries, StrMap};
use crate::text::{
    before_suffix, concat2, concat3, concat5, pairs, str_eq, strip_suffix, texts, Text,
};
use crate::wfcmd::{command, param_value, parse, Command, CommandView};
use vstd::prelude::*;

verus! {

/// What has been gathered from a step's output so far.
pub struct Scan {
    masks: Vec<String>,
    outputs: Vec<(String, String)>,
}

/// [`Scan`] over views.
#[verifier::ext_equal]
pub struct ScanView {
    /// What is masked, longest first.
    pub masks: Seq<Text>,
    /// The outputs that were set, in order.
    pub outputs: Seq<(Text, Text)>,
}

impl View for Scan {
    type V = ScanView;

    closed spec fn view(&self) -> ScanView {
        ScanView { masks: texts(self.masks@), outputs: pairs(self.outputs@) }
    }
}

/// A line without its ending: one line feed, and one carriage return before it.
pub open spec fn bare_line(raw: Text) -> Text {
    let a = match before_suffix(raw, "\n"@) {
        Some(t) => t,
        None => raw,
    };
    match before_suffix(a, "\r"@) {
        Some(t) => t,
        None => a,
    }
}

/// Take the ending off a line.
pub fn strip_ending(raw: &str) -> (r: String)
    ensures
        r@ == bare_line(raw@),
{
    let a = match strip_suffix(raw, "\n") {
        Some(t) => t,
        None => raw.to_owned(),
    };
    match strip_suffix(a.as_str(), "\r") {
        Some(t) => t,
        None => a,
    }
}

/// What an annotation is headed with.
pub open spec fn annotation_label(name: Text) -> Text {
    if name == "error"@ {
        "✗ error"@
    } else if name == "warning"@ {
        "⚠ warning"@
    } else {
        "notice"@
    }
}

/// The place that an annotation names.
pub open spec fn annotation_place(params: Seq<(Text, Text)>) -> Text {
    match param_value(params, "file"@) {
        Some(f) => match param_value(params, "line"@) {
            Some(l) => " ("@ + f + ":"@ + l + ")"@,
            None => " ("@ + f + ")"@,
        },
        None => Seq::empty(),
    }
}

/// An annotation as it is printed.
pub open spec fn annotation(c: CommandView, masks: Seq<Text>) -> Text {
    "  "@ + annotation_label(c.name) + masked(annotation_place(c.params), masks) + ": "@ + masked(
        c.message,
        masks,
    )
}

/// An annotation as it is printed, with its `file:line` if that is given.
pub fn render_annotation(c: &Command, masks: &Vec<String>) -> (r: String)
    ensures
        r@ == annotation(c@, texts(masks@)),
{
    let label = if str_eq(c.name.as_str(), "error") {
        "✗ error"
    } else if str_eq(c.name.as_str(), "warning") {
        "⚠ warning"
    } else {
        "notice"
    };
    let place = match c.param("file") {
        Some(f) => match c.param("line") {
            Some(l) => concat5(" (", f, ":", l, ")"),
            None => concat3(" (", f, ")"),
        },
        None => {
            let e = String::new();
            assert(e@ =~= Seq::empty());
            e
        },
    };
    concat5(
        "  ",
        label,
        mask_line(place.as_str(), masks).as_str(),
        ": ",
        mask_line(c.message.as_str(), masks).as_str(),
    )
}

/// One of the annotations.
pub open spec fn is_annotation(name: Text) -> bool {
    name == "error"@ || name == "warning"@ || name == "notice"@
}

/// A command that is taken out of the output and does nothing more.
pub open spec fn is_quiet(name: Text) -> bool {
    name == "save-state"@ || name == "set-env"@ || name == "add-path"@ || name == "echo"@ || name
        == "stop-commands"@ || name == "endgroup"@
}

/// What a command does, and what is printed for it; nothing where it is not one
/// that is known.
pub open spec fn obeyed(s: ScanView, c: CommandView) -> Option<(ScanView, Option<Text>)> {
    if c.name == "set-output"@ {
        Some(
            (
                match param_value(c.params, "name"@) {
                    Some(n) => ScanView {
                        masks: s.masks,
                        outputs: s.outputs.push((n, c.message)),
                    },
                    None => s,
                },
                None,
            ),
        )
    } else if c.name == "add-mask"@ {
        Some(
            (
                if is_maskable(c.message) {
                    ScanView { masks: with_mask(s.masks, c.message), outputs: s.outputs }
                } else {
                    s
                },
                None,
            ),
        )
    } else if is_quiet(c.name) {
        Some((s, None))
    } else if is_annotation(c.name) {
        Some((s, Some(annotation(c, s.masks))))
    } else if c.name == "group"@ {
        Some((s, Some("  ▸ "@ + masked(c.message, s.masks))))
    } else if c.name == "debug"@ {
        Some((s, Some("  ::debug:: "@ + masked(c.message, s.masks))))
    } else {
        None
    }
}

/// What a line does, and what is printed for it.
pub open spec fn scanned(s: ScanView, raw: Text) -> (ScanView, Option<Text>) {
    let line = bare_line(raw);
    let plain = (s, Some(masked(line, s.masks)));
    match command(line) {
        Some(c) => match obeyed(s, c) {
            Some(r) => r,
            None => plain,
        },
        None => plain,
    }
}

/// A printed line over views.
pub open spec fn opt_line(o: Option<String>) -> Option<Text> {
    crate::text::opt_text(o)
}

impl Scan {
    #[verifier::type_invariant]
    spec fn well_formed(&self) -> bool {
        all_maskable(texts(self.masks@))
    }

    /// A scan that has seen nothing and masks the secrets.
    pub fn new(secrets: &StrMap) -> (r: Scan)
        ensures
            r@.masks == masks_of(values_of(map_entries(*secrets))),
            r@.outputs == Seq::<(Text, Text)>::empty(),
    {
        let outputs: Vec<(String, String)> = Vec::new();
        let masks = secret_masks(secrets);
        assert(pairs(outputs@) =~= Seq::<(Text, Text)>::empty());
        Scan { masks, outputs }
    }

    /// The outputs that were set, in order.
    pub fn outputs(&self) -> (r: &Vec<(String, String)>)
        ensures
            pairs(r@) == self@.outputs,
    {
        &self.outputs
    }

    /// Keep an output.
    fn keep_output(&mut self, name: String, value: String)
        ensures
            final(self)@ == (ScanView {
                masks: old(self)@.masks,
                outputs: old(self)@.outputs.push((name@, value@)),
            }),
    {
        proof {
            use_type_invariant(&*self);
        }
        let mut outs: Vec<(String, String)> = Vec::new();
        std::mem::swap(&mut outs, &mut self.outputs);
        let ghost had = pairs(outs@);
        outs.push((name, value));
        assert(pairs(outs@) =~= had.push((name@, value@)));
        self.outputs = outs;
    }

    /// Mask one more value.
    fn keep_mask(&mut self, value: String)
        requires
            is_maskable(value@),
        ensures
            final(self)@ == (ScanView {
                masks: with_mask(old(self)@.masks, value@),
                outputs: old(self)@.outputs,
            }),
    {
        proof {
            use_type_invariant(&*self);
            crate::exec::mask::lemma_with_mask(texts(self.masks@), value@);
        }
        let mut masks: Vec<String> = Vec::new();
        assert(all_maskable(texts(masks@)));
        std::mem::swap(&mut masks, &mut self.masks);
        add_mask(&mut masks, value);
        self.masks = masks;
    }

    /// Take a line of the output: do what it commands, and return what is to be
    /// printed for it.
    pub fn line(&mut self, raw: &str) -> (r: Option<String>)
        ensures
            (final(self)@, opt_line(r)) == scanned(old(self)@, raw@),
    {
        let line = strip_ending(raw);
        let found = parse(line.as_str());
        match &found {
            Some(c) => {
                let name = c.name.as_str();
                if str_eq(name, "set-output") {
                    match c.param("name") {
                        Some(n) => {
                            self.keep_output(n.to_owned(), c.message.clone());
                        },
                        None => {},
                    }
                    return None;
                }
                if str_eq(name, "add-mask") {
                    if maskable(c.message.as_str()) {
                        self.keep_mask(c.message.clone());
                    }
                    return None;
                }
                if str_eq(name, "save-state") || str_eq(name, "set-env") || str_eq(
                    name,
                    "add-path",
                ) || str_eq(name, "echo") || str_eq(name, "stop-commands") || str_eq(
                    name,
                    "endgroup",
                ) {
                    return None;
                }
                if str_eq(name, "error") || str_eq(name, "warning") || str_eq(name, "notice") {
                    return Some(render_annotation(c, &self.masks));
                }
                if str_eq(name, "group") {
                    return Some(
                        concat2("  ▸ ", mask_line(c.message.as_str(), &self.masks).as_str()),
                    );
                }
                if str_eq(name, "debug") {
                    return Some(
                        concat2(
                            "  ::debug:: ",
                            mask_line(c.message.as_str(), &self.masks).as_str(),
                        ),
                    );
                }
            },
            None => {},
        }
        Some(mask_line(line.as_str(), &self.masks))
    }
}

// ---------------------------------------------------------------------------
// Laws
// ---------------------------------------------------------------------------

/// The state after lines.
pub open spec fn after_lines(s: ScanView, lines: Seq<Text>) -> ScanView
    decreases lines.len(),
{
    if lines.len() == 0 {
        s
    } else {
        scanned(after_lines(s, lines.drop_last()), lines.last()).0
    }
}

/// What is masked once stays masked: later lines only add masks and outputs.
pub proof fn law_masks_stay(s: ScanView, lines: Seq<Text>, v: Text)
    requires
        s.masks.contains(v),
    ensures
        after_lines(s, lines).masks.contains(v),
        after_lines(s, lines).outputs.len() >= s.outputs.len(),
        after_lines(s, lines).outputs.take(s.outputs.len() as int) == s.outputs,
    decreases lines.len(),
{
    if lines.len() > 0 {
        let rest = after_lines(s, lines.drop_last());
        law_masks_stay(s, lines.drop_last(), v);
        let next = scanned(rest, lines.last()).0;
        match command(bare_line(lines.last())) {
            Some(c) => {
                if c.name == "add-mask"@ && is_maskable(c.message) {
                    crate::exec::mask::lemma_mask_kept(rest.masks, c.message, v);
                }
            },
            None => {},
        }
        assert(next.outputs.take(s.outputs.len() as int) =~= rest.outputs.take(
            s.outputs.len() as int,
        ));
    } else {
        assert(s.outputs.take(s.outputs.len() as int) =~= s.outputs);
    }
}

/// A line that is no command is passed on, masked, and changes nothing.
pub proof fn law_plain_lines_pass(s: ScanView, raw: Text)
    requires
        command(bare_line(raw)) is None,
    ensures
        scanned(s, raw) == (s, Some(masked(bare_line(raw), s.masks))),
{
}

/// After `add-mask`, no line that is passed on holds the value, unless stars can
/// make it up.
pub proof fn law_masked_values_are_not_passed_on(s: ScanView, lines: Seq<Text>, raw: Text, v: Text)
    requires
        s.masks.contains(v),
        is_maskable(v),
        crate::exec::mask::is_apart_from_stars(v),
        command(bare_line(raw)) is None,
    ensures
        scanned(after_lines(s, lines), raw).1 matches Some(t) && !crate::scan::holds(t, v),
{
    law_masks_stay(s, lines, v);
    crate::exec::mask::lemma_masked(bare_line(raw), after_lines(s, lines).masks, v);
}

/// A line is looked at without its line end.
pub proof fn law_line_ends_do_not_count(l: Text)
    requires
        l.len() > 0,
        l.last() != '\n',
        l.last() != '\r',
    ensures
        bare_line(l) == l,
        bare_line(l.push('\n')) == l,
        bare_line(l.push('\r').push('\n')) == l,
        bare_line(l.push('\r')) == l,
{
    reveal_strlit("\n");
    reveal_strlit("\r");
    assert("\n"@ =~= seq!['\n']);
    assert("\r"@ =~= seq!['\r']);
    crate::text::law_prefixes_and_suffixes(l, "\n"@);
    crate::text::law_prefixes_and_suffixes(l, "\r"@);
    let r = l.push('\r');
    crate::text::law_prefixes_and_suffixes(r, "\n"@);
    assert(l.push('\n') =~= l + "\n"@);
    assert(r =~= l + "\r"@);
    assert(r.push('\n') =~= r + "\n"@);
    if let Some(t) = before_suffix(l, "\n"@) {
        assert(l.last() == (t + "\n"@).last());
    }
    if let Some(t) = before_suffix(l, "\r"@) {
        assert(l.last() == (t + "\r"@).last());
    }
    if let Some(t) = before_suffix(r, "\n"@) {
        assert(r.last() == (t + "\n"@).last());
    }
}

/// The names of commands are told apart.
proof fn lemma_command_names()
    ensures
        "set-output"@.len() == 10 && "set-output"@[0] == 's' && "set-output"@[1] == 'e',
        "add-mask"@.len() == 8 && "add-mask"@[0] == 'a' && "add-mask"@[4] == 'm',
        "save-state"@.len() == 10 && "save-state"@[1] == 'a',
        "set-env"@.len() == 7 && "set-env"@[0] == 's',
        "add-path"@.len() == 8 && "add-path"@[0] == 'a' && "add-path"@[4] == 'p',
        "echo"@.len() == 4,
        "stop-commands"@.len() == 13,
        "endgroup"@.len() == 8 && "endgroup"@[0] == 'e',
        "error"@.len() == 5 && "error"@[0] == 'e',
        "warning"@.len() == 7 && "warning"@[0] == 'w',
        "notice"@.len() == 6,
        "group"@.len() == 5 && "group"@[0] == 'g',
        "debug"@.len() == 5 && "debug"@[0] == 'd',
{
    reveal_strlit("set-output");
    reveal_strlit("add-mask");
    reveal_strlit("save-state");
    reveal_strlit("set-env");
    reveal_strlit("add-path");
    reveal_strlit("echo");
    reveal_strlit("stop-commands");
    reveal_strlit("endgroup");
    reveal_strlit("error");
    reveal_strlit("warning");
    reveal_strlit("notice");
    reveal_strlit("group");
    reveal_strlit("debug");
}

/// What each command does: `set-output` sets an output, `add-mask` a mask,
/// annotations, groups and debug lines are shown masked, the rest of the known
/// ones do nothing, and an unknown one is a line like any other.
pub proof fn law_commands_are_obeyed(s: ScanView, raw: Text, c: CommandView)
    requires
        command(bare_line(raw)) == Some(c),
    ensures
        c.name == "set-output"@ ==> (crate::table::lookup(c.params, "name"@) matches Some(n)
            ==> scanned(s, raw) == (
            ScanView { masks: s.masks, outputs: s.outputs.push((n, c.message)) },
            None::<Text>,
        )),
        c.name == "set-output"@ && crate::table::lookup(c.params, "name"@) is None ==> scanned(
            s,
            raw,
        ) == (s, None::<Text>),
        c.name == "add-mask"@ ==> {
            &&& scanned(s, raw).1 is None
            &&& scanned(s, raw).0.outputs == s.outputs
            &&& c.message.len() >= 4 ==> scanned(s, raw).0.masks == with_mask(s.masks, c.message)
            &&& c.message.len() < 4 ==> scanned(s, raw).0.masks == s.masks
        },
        c.name == "save-state"@ || c.name == "set-env"@ || c.name == "add-path"@ || c.name
            == "echo"@ || c.name == "stop-commands"@ || c.name == "endgroup"@ ==> scanned(s, raw)
            == (s, None::<Text>),
        c.name == "error"@ ==> scanned(s, raw) == (
            s,
            Some(
                "  "@ + "✗ error"@ + masked(annotation_place(c.params), s.masks) + ": "@ + masked(
                    c.message,
                    s.masks,
                ),
            ),
        ),
        c.name == "warning"@ ==> scanned(s, raw) == (
            s,
            Some(
                "  "@ + "⚠ warning"@ + masked(annotation_place(c.params), s.masks) + ": "@ + masked(
                    c.message,
                    s.masks,
                ),
            ),
        ),
        c.name == "notice"@ ==> scanned(s, raw) == (
            s,
            Some(
                "  "@ + "notice"@ + masked(annotation_place(c.params), s.masks) + ": "@ + masked(
                    c.message,
                    s.masks,
                ),
            ),
        ),
        c.name == "group"@ ==> scanned(s, raw) == (
            s,
            Some("  ▸ "@ + masked(c.message, s.masks)),
        ),
        c.name == "debug"@ ==> scanned(s, raw) == (
            s,
            Some("  ::debug:: "@ + masked(c.message, s.masks)),
        ),
        ![
            "set-output"@,
            "add-mask"@,
            "save-state"@,
            "set-env"@,
            "add-path"@,
            "echo"@,
            "stop-commands"@,
            "endgroup"@,
            "error"@,
            "warning"@,
            "notice"@,
            "group"@,
            "debug"@,
        ]@.contains(c.name) ==> scanned(s, raw) == (s, Some(masked(bare_line(raw), s.masks))),
{
    lemma_command_names();
    let known = [
        "set-output"@,
        "add-mask"@,
        "save-state"@,
        "set-env"@,
        "add-path"@,
        "echo"@,
        "stop-commands"@,
        "endgroup"@,
        "error"@,
        "warning"@,
        "notice"@,
        "group"@,
        "debug"@,
    ]@;
    assert(known[0] == "set-output"@ && known[1] == "add-mask"@ && known[2] == "save-state"@
        && known[3] == "set-env"@ && known[4] == "add-path"@ && known[5] == "echo"@ && known[6]
        == "stop-commands"@ && known[7] == "endgroup"@ && known[8] == "error"@ && known[9]
        == "warning"@ && known[10] == "notice"@ && known[11] == "group"@ && known[12] == "debug"@);
}

/// An annotation says where it belongs: the file, and the line where one is given
/// with it.
pub proof fn law_annotations_say_where(params: Seq<(Text, Text)>)
    ensures
        crate::table::lookup(params, "file"@) is None ==> annotation_place(params).len() == 0,
        crate::table::lookup(params, "file"@) matches Some(f) ==> (crate::table::lookup(
            params,
            "line"@,
        ) matches Some(l) ==> annotation_place(params) == " ("@ + f + ":"@ + l + ")"@),
        crate::table::lookup(params, "file"@) matches Some(f) ==> (crate::table::lookup(
            params,
            "line"@,
        ) is None ==> annotation_place(params) == " ("@ + f + ")"@),
{
}

/// Lines are taken one after another.
pub proof fn law_lines_are_taken_in_turn(s: ScanView, lines: Seq<Text>, raw: Text)
    ensures
        after_lines(s, Seq::empty()) == s,
        after_lines(s, lines.push(raw)) == scanned(after_lines(s, lines), raw).0,
{
    assert(lines.push(raw).drop_last() =~= lines);
}

} // verus!
