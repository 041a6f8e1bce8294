//! What holds of the format for all inputs.
use crate::error::ParseError;
use crate::ev3::grammar::{
    bounds_of, decoded_tag, document_of, joint_of, joints_of, node_joints, Joint, empty_tag, empty_tag_at, event_at, first_error,
    known_end_tag, known_start_tag, last_value, lemma_step_advances, method_call, nothing,
    sequence_terminal, sequence_wire_type, terminal_direction, terminal_id,
    passed_empty_tag, plain_tag, required_value, run, start_block, start_tag, start_tag_at, step,
    version_of, wire_of, BlockType, BlockView, DocumentView, Gathered, SequenceBlockType, Step,
    TagKind, TagView, WireView,
};
use crate::ev3::project::file_document;
use crate::number::{decimal_text, is_digit, lemma_usize_of_decimal_text, usize_of};
use crate::text::{
    is_whitespace, lemma_find_first_is, lemma_split_first, lemma_split_single,
    lemma_words_after_blank, lemma_words_first, split_spec, words,
};
use crate::utils::xml::{
    AttributeView, decoded_attributes, decoded_name, event_views, file_events, raw_views, EventView,
    RawAttribute, XmlEvent,
};
use vstd::prelude::*;

verus! {

/// The text of a geometry: four fields with one space between each two.
pub open spec fn bounds_text(x: Seq<char>, y: Seq<char>, w: Seq<char>, h: Seq<char>) -> Seq<char> {
    x + seq![' '] + (y + seq![' '] + (w + seq![' '] + h))
}

/// Whether `s` is white space and nothing else.
pub open spec fn blank(s: Seq<char>) -> bool {
    forall|i: int| 0 <= i < s.len() ==> is_whitespace(s[i])
}

/// Whether `s` is white space, and not empty.
pub open spec fn gap(s: Seq<char>) -> bool {
    s.len() > 0 && blank(s)
}

/// The text of a geometry with any white space around and between its fields.
pub open spec fn spaced_bounds_text(
    lead: Seq<char>,
    x: Seq<char>,
    first: Seq<char>,
    y: Seq<char>,
    second: Seq<char>,
    w: Seq<char>,
    third: Seq<char>,
    h: Seq<char>,
    trail: Seq<char>,
) -> Seq<char> {
    lead + (x + (first + (y + (second + (w + (third + (h + trail)))))))
}

/// A string that is read as a number is not empty and holds no white space.
pub proof fn lemma_number_is_a_word(s: Seq<char>)
    requires
        usize_of(s) is Some,
    ensures
        s.len() > 0,
        forall|i: int| 0 <= i < s.len() ==> !is_whitespace(s[i]),
{
    assert forall|i: int| 0 <= i < s.len() implies !is_whitespace(s[i]) by {
        if s[0] == '+' {
            if i > 0 {
                assert(is_digit(s.skip(1)[i - 1]));
            }
        } else {
            assert(is_digit(s[i]));
        }
    }
}

/// White space and a word behind it begin with white space, where they are not empty.
proof fn lemma_gap_first(gap_text: Seq<char>, rest: Seq<char>)
    requires
        gap(gap_text),
    ensures
        (gap_text + rest).len() > 0,
        is_whitespace((gap_text + rest)[0]),
{
    assert((gap_text + rest)[0] == gap_text[0]);
}

/// For all numbers `x`, `y`, `w` and `h`, with any white space before the first and
/// behind the last, and white space, however much, between each two, the text decodes
/// to the third and the fourth.
pub proof fn law_bounds_of_spaced_fields(
    lead: Seq<char>,
    x: Seq<char>,
    first: Seq<char>,
    y: Seq<char>,
    second: Seq<char>,
    w: Seq<char>,
    third: Seq<char>,
    h: Seq<char>,
    trail: Seq<char>,
)
    requires
        usize_of(x) is Some,
        usize_of(y) is Some,
        usize_of(w) is Some,
        usize_of(h) is Some,
        blank(lead),
        gap(first),
        gap(second),
        gap(third),
        blank(trail),
    ensures
        bounds_of(spaced_bounds_text(lead, x, first, y, second, w, third, h, trail)) == Ok::<
            (usize, usize),
            ParseError,
        >((usize_of(w)->Some_0, usize_of(h)->Some_0)),
{
    lemma_number_is_a_word(x);
    lemma_number_is_a_word(y);
    lemma_number_is_a_word(w);
    lemma_number_is_a_word(h);
    let t8 = trail;
    let t7 = h + t8;
    let t6 = third + t7;
    let t5 = w + t6;
    let t4 = second + t5;
    let t3 = y + t4;
    let t2 = first + t3;
    let t1 = x + t2;
    lemma_words_after_blank(trail, Seq::<char>::empty());
    assert(trail + Seq::<char>::empty() =~= trail);
    assert(words(Seq::<char>::empty()) =~= Seq::<Seq<char>>::empty());
    if trail.len() > 0 {
        assert(is_whitespace(trail[0]));
    }
    lemma_words_first(h, t8);
    lemma_words_after_blank(third, t7);
    lemma_gap_first(third, t7);
    lemma_words_first(w, t6);
    lemma_words_after_blank(second, t5);
    lemma_gap_first(second, t5);
    lemma_words_first(y, t4);
    lemma_words_after_blank(first, t3);
    lemma_gap_first(first, t3);
    lemma_words_first(x, t2);
    lemma_words_after_blank(lead, t1);
    assert(words(spaced_bounds_text(lead, x, first, y, second, w, third, h, trail)) =~= seq![x, y, w, h]);
}

/// Four numbers with one space between each two decode to the third and the fourth.
pub proof fn law_bounds_of_fields(x: Seq<char>, y: Seq<char>, w: Seq<char>, h: Seq<char>)
    requires
        usize_of(x) is Some,
        usize_of(y) is Some,
        usize_of(w) is Some,
        usize_of(h) is Some,
    ensures
        bounds_of(bounds_text(x, y, w, h)) == Ok::<(usize, usize), ParseError>(
            (usize_of(w)->Some_0, usize_of(h)->Some_0),
        ),
{
    let none = Seq::<char>::empty();
    law_bounds_of_spaced_fields(none, x, seq![' '], y, seq![' '], w, seq![' '], h, none);
    assert(spaced_bounds_text(none, x, seq![' '], y, seq![' '], w, seq![' '], h, none) =~= bounds_text(
        x,
        y,
        w,
        h,
    ));
}

/// For all numbers `x`, `y`, `w` and `h` that fit a `usize`, the geometry string
/// `x y w h` in decimal digits decodes to `(w, h)`.
pub proof fn law_bounds_of_numbers(x: nat, y: nat, w: nat, h: nat)
    requires
        x <= usize::MAX,
        y <= usize::MAX,
        w <= usize::MAX,
        h <= usize::MAX,
    ensures
        bounds_of(bounds_text(decimal_text(x), decimal_text(y), decimal_text(w), decimal_text(h))) == Ok::<
            (usize, usize),
            ParseError,
        >((w as usize, h as usize)),
{
    lemma_usize_of_decimal_text(x);
    lemma_usize_of_decimal_text(y);
    lemma_usize_of_decimal_text(w);
    lemma_usize_of_decimal_text(h);
    law_bounds_of_fields(decimal_text(x), decimal_text(y), decimal_text(w), decimal_text(h));
}

/// A geometry string with another number of fields than four, or with a field that is
/// no number, is malformed.
pub proof fn law_bounds_rejected(input: Seq<char>)
    requires
        words(input).len() != 4 || exists|i: int| 0 <= i < 4 && usize_of(#[trigger] words(input)[i]) is None,
    ensures
        bounds_of(input) == Err::<(usize, usize), ParseError>(ParseError::MalformedBounds),
{
}

/// The token of a node joint: the kind `N`, and in brackets the id, a colon and the role.
pub open spec fn node_joint(id: Seq<char>, role: Seq<char>) -> Seq<char> {
    seq!['N', '('] + id + seq![':'] + role + seq![')']
}

/// Whether `s` holds no space, no colon and no closing bracket.
pub open spec fn plain(s: Seq<char>) -> bool {
    forall|i: int| 0 <= i < s.len() ==> s[i] != ' ' && s[i] != ':' && s[i] != ')'
}

/// The two roles are plain and differ.
pub proof fn lemma_roles()
    ensures
        plain("SequenceIn"@),
        plain("SequenceOut"@),
        "SequenceIn"@ != "SequenceOut"@,
{
    reveal_strlit("SequenceIn");
    reveal_strlit("SequenceOut");
    assert("SequenceIn"@ =~= seq!['S', 'e', 'q', 'u', 'e', 'n', 'c', 'e', 'I', 'n']);
    assert("SequenceOut"@ =~= seq!['S', 'e', 'q', 'u', 'e', 'n', 'c', 'e', 'O', 'u', 't']);
}

/// The token of a node joint with a plain id and a plain role holds no space, and is
/// read as the joint of that id with that role.
pub proof fn lemma_node_joint(id: Seq<char>, role: Seq<char>)
    requires
        plain(id),
        plain(role),
    ensures
        forall|i: int| 0 <= i < node_joint(id, role).len() ==> node_joint(id, role)[i] != ' ',
        joint_of(node_joint(id, role)) == if role == "SequenceIn"@ {
            Joint::Node(id, SequenceBlockType::In)
        } else if role == "SequenceOut"@ {
            Joint::Node(id, SequenceBlockType::Out)
        } else {
            Joint::Malformed
        },
{
    let token = node_joint(id, role);
    let rest = token.skip(1);
    let colon = 1 + id.len() as int;
    let bracket = colon + 1 + role.len() as int;
    assert(rest.len() == bracket + 1);
    assert forall|j: int| 0 <= j < colon implies rest[j] != ':' by {
        if j > 0 {
            assert(rest[j] == id[j - 1]);
        }
    }
    assert(rest[colon] == ':');
    lemma_find_first_is(rest, ':', colon);
    assert forall|j: int| 0 <= j < bracket implies rest[j] != ')' by {
        if 0 < j < colon {
            assert(rest[j] == id[j - 1]);
        } else if j > colon {
            assert(rest[j] == role[j - colon - 1]);
        }
    }
    assert(rest[bracket] == ')');
    lemma_find_first_is(rest, ')', bracket);
    assert(rest.subrange(1, colon) =~= id);
    assert(rest.subrange(colon + 1, bracket) =~= role);
    assert forall|i: int| 0 <= i < token.len() implies token[i] != ' ' by {
        if 2 <= i < 2 + id.len() {
            assert(token[i] == id[i - 2]);
        } else if 2 + id.len() < i < token.len() - 1 {
            assert(token[i] == role[i - 3 - id.len()]);
        }
    }
}

/// For all plain ids `a` and `b`, the joint string of the input joint of `a`, the
/// output joint of `b` and a joint of another kind decodes to `(a, b)`: the joint of
/// another kind is passed over.
pub proof fn law_joints_of_nodes(a: Seq<char>, b: Seq<char>, other: Seq<char>)
    requires
        plain(a),
        plain(b),
        other.len() > 0,
        other[0] != 'N',
        forall|i: int| 0 <= i < other.len() ==> other[i] != ' ',
    ensures
        joints_of(
            node_joint(a, "SequenceIn"@) + seq![' '] + (node_joint(b, "SequenceOut"@) + seq![' '] + other),
        ) == Ok::<(Seq<char>, Seq<char>), ParseError>((a, b)),
{
    lemma_roles();
    let x = node_joint(a, "SequenceIn"@);
    let y = node_joint(b, "SequenceOut"@);
    lemma_node_joint(a, "SequenceIn"@);
    lemma_node_joint(b, "SequenceOut"@);
    lemma_split_single(other, ' ');
    lemma_split_first(y, other, ' ');
    lemma_split_first(x, y + seq![' '] + other, ' ');
    let tokens = split_spec(x + seq![' '] + (y + seq![' '] + other), ' ');
    assert(tokens =~= seq![x, y, other]);
    assert(tokens.drop_last() =~= seq![x, y]);
    assert(tokens.drop_last().drop_last() =~= seq![x]);
    assert(tokens.drop_last().drop_last().drop_last() =~= Seq::<Seq<char>>::empty());
    reveal_with_fuel(node_joints, 4);
    assert(node_joints(tokens, SequenceBlockType::In) =~= seq![a]);
    assert(node_joints(tokens, SequenceBlockType::Out) =~= seq![b]);
}

/// Two output joints and no input joint are malformed.
pub proof fn law_joints_of_two_outputs(a: Seq<char>, b: Seq<char>)
    requires
        plain(a),
        plain(b),
    ensures
        joints_of(node_joint(a, "SequenceOut"@) + seq![' '] + node_joint(b, "SequenceOut"@)) == Err::<
            (Seq<char>, Seq<char>),
            ParseError,
        >(ParseError::MalformedJoints),
{
    lemma_roles();
    let x = node_joint(a, "SequenceOut"@);
    let y = node_joint(b, "SequenceOut"@);
    lemma_node_joint(a, "SequenceOut"@);
    lemma_node_joint(b, "SequenceOut"@);
    lemma_split_single(y, ' ');
    lemma_split_first(x, y, ' ');
    let tokens = split_spec(x + seq![' '] + y, ' ');
    assert(tokens =~= seq![x, y]);
    assert(tokens.drop_last() =~= seq![x]);
    assert(tokens.drop_last().drop_last() =~= Seq::<Seq<char>>::empty());
    reveal_with_fuel(node_joints, 3);
    assert(node_joints(tokens, SequenceBlockType::In) =~= Seq::<Seq<char>>::empty());
}

/// What the attributes of a tag decode to depends on the bytes of their names and
/// values and on nothing else: two lists that hold the same bytes decode alike.
pub proof fn law_attributes_decode_by_content(a: Seq<RawAttribute>, b: Seq<RawAttribute>)
    requires
        a.len() == b.len(),
        forall|i: int| 0 <= i < a.len() ==> a[i].key@ == b[i].key@ && a[i].value@ == b[i].value@,
    ensures
        decoded_attributes(raw_views(a)) == decoded_attributes(raw_views(b)),
{
    assert(raw_views(a) =~= raw_views(b));
}

/// What the events of a file make up depends on the bytes that they hold and on
/// nothing else: two lists of events that hold the same give the same document.
pub proof fn law_document_by_content(name: Seq<char>, a: Seq<XmlEvent>, b: Seq<XmlEvent>)
    requires
        a.len() == b.len(),
        forall|i: int| 0 <= i < a.len() ==> a[i]@ == b[i]@,
    ensures
        document_of(name, event_views(a)) == document_of(name, event_views(b)),
{
    assert(event_views(a) =~= event_views(b));
}

/// Whether the builder, set at `idx` with `g` gathered, comes to stand at `target` with
/// `reached` gathered, by handling one event at the top level after the other.
pub open spec fn arrives(g: Gathered, events: Seq<EventView>, idx: int, target: int, reached: Gathered) -> bool
    decreases events.len() - idx,
{
    if idx == target {
        g == reached
    } else {
        match step(g, events, idx) {
            Ok(s) => !s.done && idx < s.next <= events.len() && arrives(
                s.gathered,
                events,
                s.next,
                target,
                reached,
            ),
            Err(_) => false,
        }
    }
}

/// Wherever the builder comes to stand at a start tag that decodes and whose name it
/// does not know, the parse fails with `UnknownTag`.
pub proof fn law_unknown_start_tag(g: Gathered, events: Seq<EventView>, idx: int, target: int, reached: Gathered)
    requires
        0 <= idx,
        arrives(g, events, idx, target, reached),
        start_tag_at(events, target) matches Ok(tag) && !known_start_tag(tag.name),
    ensures
        run(g, events, idx) == Err::<(Gathered, int), ParseError>(ParseError::UnknownTag),
    decreases events.len() - idx,
{
    if idx == target {
        reveal(step);
    } else {
        let s = step(g, events, idx)->Ok_0;
        law_unknown_start_tag(s.gathered, events, s.next, target, reached);
    }
}

/// A file in which the builder comes to stand at a start tag that decodes and whose
/// name it does not know gives no document, but the error `UnknownTag`.
pub proof fn law_unknown_start_tag_in_document(
    name: Seq<char>,
    events: Seq<EventView>,
    target: int,
    reached: Gathered,
)
    requires
        arrives(nothing(), events, 0, target, reached),
        start_tag_at(events, target) matches Ok(tag) && !known_start_tag(tag.name),
    ensures
        document_of(name, events) is Err,
        document_of(name, events)->Err_0 == ParseError::UnknownTag,
{
    law_unknown_start_tag(nothing(), events, 0, target, reached);
}

/// The bytes of a file whose events bring the builder to a start tag that decodes and
/// whose name it does not know give no document, but the error `UnknownTag`.
pub proof fn law_unknown_start_tag_in_file(
    name: Seq<char>,
    contents: Seq<u8>,
    target: int,
    reached: Gathered,
)
    requires
        file_events(contents) matches Some(events) && arrives(nothing(), events, 0, target, reached) && (
        start_tag_at(events, target) matches Ok(tag) && !known_start_tag(tag.name)),
    ensures
        file_document(name, contents) == Err::<DocumentView, ParseError>(ParseError::UnknownTag),
{
    law_unknown_start_tag_in_document(name, file_events(contents)->Some_0, target, reached);
}

/// Whether the event at `idx` is the closing tag of a container that the builder knows.
pub open spec fn closes(events: Seq<EventView>, idx: int) -> bool {
    event_at(events, idx) matches Ok(EventView::EndTag(qname)) && (decoded_name(qname) matches Ok((name, _))
        && known_end_tag(name))
}

/// Whether `events` are the least document with a start block: the declaration, the
/// opening of `SourceFile` with a version, of `Namespace`, of `VirtualInstrument`, of
/// `FrontPanel` and of the root `BlockDiagram`, one well-formed `StartBlock` with the
/// five events inside it, five closing tags of containers, and the end of the file.
pub open spec fn minimal_document(events: Seq<EventView>) -> bool {
    &&& events.len() == 18
    &&& events[0] is Declaration
    &&& start_tag_at(events, 1) matches Ok(t) && plain_tag(t, "SourceFile"@) && version_of(t.attributes) is Ok
    &&& start_tag_at(events, 2) matches Ok(t) && plain_tag(t, "Namespace"@) && first_error(
        t.attributes,
        TagKind::Namespace,
    ) is None
    &&& start_tag_at(events, 3) matches Ok(t) && t.name == "VirtualInstrument"@
    &&& start_tag_at(events, 4) matches Ok(t) && t.name == "FrontPanel"@
    &&& start_tag_at(events, 5) matches Ok(t) && t.name == "BlockDiagram"@ && first_error(
        t.attributes,
        TagKind::BlockDiagram,
    ) is None
    &&& start_tag_at(events, 6) matches Ok(t) && plain_tag(t, "StartBlock"@) && start_block(
        t.attributes,
        events,
        7,
    ) is Ok
    &&& closes(events, 12)
    &&& closes(events, 13)
    &&& closes(events, 14)
    &&& closes(events, 15)
    &&& closes(events, 16)
    &&& events[17] is EndOfStream
}

/// The names of the start tags that open a document differ from each other.
pub proof fn lemma_opening_names_differ()
    ensures
        "Namespace"@ != "SourceFile"@,
        "VirtualInstrument"@ != "SourceFile"@,
        "VirtualInstrument"@ != "Namespace"@,
        "FrontPanel"@ != "SourceFile"@,
        "FrontPanel"@ != "Namespace"@,
        "FrontPanel"@ != "VirtualInstrument"@,
        "BlockDiagram"@ != "SourceFile"@,
        "BlockDiagram"@ != "Namespace"@,
        "BlockDiagram"@ != "VirtualInstrument"@,
        "BlockDiagram"@ != "FrontPanel"@,
{
    reveal_strlit("SourceFile");
    reveal_strlit("Namespace");
    reveal_strlit("VirtualInstrument");
    reveal_strlit("FrontPanel");
    reveal_strlit("BlockDiagram");
    assert("SourceFile"@.len() == 10);
    assert("Namespace"@.len() == 9);
    assert("VirtualInstrument"@.len() == 17);
    assert("FrontPanel"@.len() == 10);
    assert("BlockDiagram"@.len() == 12);
    assert("SourceFile"@[0] == 'S');
    assert("FrontPanel"@[0] == 'F');
}

/// A start tag that decodes does at the top level what `start_tag` says of it.
pub proof fn lemma_step_at_start_tag(g: Gathered, events: Seq<EventView>, idx: int)
    requires
        start_tag_at(events, idx) matches Ok(tag) && start_tag(g, tag, events, idx + 1) is Ok,
    ensures
        step(g, events, idx) == Ok::<Step, ParseError>(
            Step {
                gathered: start_tag(g, start_tag_at(events, idx)->Ok_0, events, idx + 1)->Ok_0.0,
                next: start_tag(g, start_tag_at(events, idx)->Ok_0, events, idx + 1)->Ok_0.1,
                done: false,
            },
        ),
{
    reveal(step);
}

/// The closing tag of a known container passes.
pub proof fn lemma_step_at_close(g: Gathered, events: Seq<EventView>, idx: int)
    requires
        closes(events, idx),
    ensures
        step(g, events, idx) == Ok::<Step, ParseError>(Step { gathered: g, next: idx + 1, done: false }),
{
    reveal(step);
}

/// The least document with a start block gives a document with the name given to it,
/// the declaration and the version of the file, no wire, and one block: the start
/// block, under the id that its tag declares.
pub proof fn law_minimal_document(name: Seq<char>, events: Seq<EventView>)
    requires
        minimal_document(events),
    ensures
        ({
            let opened = start_tag_at(events, 6)->Ok_0;
            let (id, block, next) = start_block(opened.attributes, events, 7)->Ok_0;
            &&& document_of(name, events) is Ok
            &&& document_of(name, events)->Ok_0.name == name
            &&& document_of(name, events)->Ok_0.decl == events[0]->Declaration_0
            &&& document_of(name, events)->Ok_0.version == version_of(
                start_tag_at(events, 1)->Ok_0.attributes,
            )->Ok_0
            &&& document_of(name, events)->Ok_0.wires == Map::<Seq<char>, WireView>::empty()
            &&& document_of(name, events)->Ok_0.blocks == Map::<Seq<char>, BlockView>::empty().insert(id, block)
            &&& required_value(opened.attributes, "Id"@) == Ok::<Seq<char>, ParseError>(id)
            &&& block.ty == BlockType::Start
            &&& block.sequence_in is None
            &&& block.sequence_out is Some
        }),
{
    lemma_opening_names_differ();
    lemma_start_block_is_tried();
    let g0 = nothing();
    let g1 = Gathered { decl: Some(events[0]->Declaration_0), ..g0 };
    let version = version_of(start_tag_at(events, 1)->Ok_0.attributes)->Ok_0;
    let g2 = Gathered { version: Some(version), ..g1 };
    let opened = start_tag_at(events, 6)->Ok_0;
    let (id, block, next) = start_block(opened.attributes, events, 7)->Ok_0;
    let g3 = Gathered { blocks: g2.blocks.insert(id, block), ..g2 };
    assert(step(g0, events, 0) == Ok::<Step, ParseError>(Step { gathered: g1, next: 1, done: false })) by {
        reveal(step);
    }
    lemma_step_at_start_tag(g1, events, 1);
    lemma_step_at_start_tag(g2, events, 2);
    lemma_step_at_start_tag(g2, events, 3);
    lemma_step_at_start_tag(g2, events, 4);
    lemma_step_at_start_tag(g2, events, 5);
    assert(next == 12) by {
        reveal(start_block);
    }
    lemma_step_at_start_tag(g2, events, 6);
    lemma_step_at_close(g3, events, 12);
    lemma_step_at_close(g3, events, 13);
    lemma_step_at_close(g3, events, 14);
    lemma_step_at_close(g3, events, 15);
    lemma_step_at_close(g3, events, 16);
    assert(step(g3, events, 17) == Ok::<Step, ParseError>(Step { gathered: g3, next: 18, done: true })) by {
        reveal(step);
    }
    assert(run(g3, events, 17) == Ok::<(Gathered, int), ParseError>((g3, 18)));
    assert(run(g3, events, 16) == run(g3, events, 17));
    assert(run(g3, events, 15) == run(g3, events, 16));
    assert(run(g3, events, 14) == run(g3, events, 15));
    assert(run(g3, events, 13) == run(g3, events, 14));
    assert(run(g3, events, 12) == run(g3, events, 13));
    assert(run(g2, events, 6) == run(g3, events, 12));
    assert(run(g2, events, 5) == run(g2, events, 6));
    assert(run(g2, events, 4) == run(g2, events, 5));
    assert(run(g2, events, 3) == run(g2, events, 4));
    assert(run(g2, events, 2) == run(g2, events, 3));
    assert(run(g1, events, 1) == run(g2, events, 2));
    assert(run(g0, events, 0) == run(g1, events, 1));
    reveal(start_block);
}

/// The bytes of a file whose events are the least document with a start block give a
/// document with one block, under the id that the start block declares, and no wire.
pub proof fn law_minimal_file(name: Seq<char>, contents: Seq<u8>)
    requires
        file_events(contents) matches Some(events) && minimal_document(events),
    ensures
        ({
            let events = file_events(contents)->Some_0;
            let opened = start_tag_at(events, 6)->Ok_0;
            let id = required_value(opened.attributes, "Id"@);
            &&& file_document(name, contents) is Ok
            &&& id is Ok
            &&& file_document(name, contents)->Ok_0.name == name
            &&& file_document(name, contents)->Ok_0.blocks.dom() == set![id->Ok_0]
            &&& file_document(name, contents)->Ok_0.blocks[id->Ok_0].ty == BlockType::Start
            &&& file_document(name, contents)->Ok_0.wires == Map::<Seq<char>, WireView>::empty()
        }),
{
    let events = file_events(contents)->Some_0;
    law_minimal_document(name, events);
    let id = required_value(start_tag_at(events, 6)->Ok_0.attributes, "Id"@)->Ok_0;
    assert(file_document(name, contents)->Ok_0.blocks.dom() =~= set![id]);
}

/// `Wire` is none of the empty tags that pass without effect.
pub proof fn lemma_wire_is_not_passed()
    ensures
        !passed_empty_tag("Wire"@),
{
    reveal_strlit("Wire");
    reveal_strlit("FrontPanelCanvas");
    reveal_strlit("AnimationsContainer");
    reveal_strlit("EventContainer");
    assert("Wire"@.len() == 4);
    assert("FrontPanelCanvas"@.len() == 16);
    assert("AnimationsContainer"@.len() == 19);
    assert("EventContainer"@.len() == 14);
}

/// Of two `Wire` tags with one id, the second fails with `DuplicateWireId`, whatever
/// was gathered before the first.
pub proof fn law_second_wire_fails(g: Gathered, first: TagView, second: TagView)
    requires
        first.name == "Wire"@,
        second.name == "Wire"@,
        wire_of(first.attributes) is Ok,
        wire_of(second.attributes) is Ok,
        wire_of(first.attributes)->Ok_0.0 == wire_of(second.attributes)->Ok_0.0,
        empty_tag(g, first) is Ok,
    ensures
        empty_tag(empty_tag(g, first)->Ok_0, second) == Err::<Gathered, ParseError>(
            ParseError::DuplicateWireId,
        ),
{
    lemma_wire_is_not_passed();
}

/// `StartBlock` is none of the start tags that are tried before it.
pub proof fn lemma_start_block_is_tried()
    ensures
        "StartBlock"@ != "SourceFile"@,
        "StartBlock"@ != "Namespace"@,
        "StartBlock"@ != "VirtualInstrument"@,
        "StartBlock"@ != "FrontPanel"@,
        "StartBlock"@ != "BlockDiagram"@,
{
    reveal_strlit("StartBlock");
    reveal_strlit("SourceFile");
    reveal_strlit("Namespace");
    reveal_strlit("VirtualInstrument");
    reveal_strlit("FrontPanel");
    reveal_strlit("BlockDiagram");
    assert("StartBlock"@.len() == 10);
    assert("Namespace"@.len() == 9);
    assert("VirtualInstrument"@.len() == 17);
    assert("BlockDiagram"@.len() == 12);
    assert("StartBlock"@[1] == 't');
    assert("SourceFile"@[1] == 'o');
    assert("StartBlock"@[0] == 'S');
    assert("FrontPanel"@[0] == 'F');
}

/// A `StartBlock` tag that is handled enters one block under the id that the tag
/// declares: a start block without an input terminal, whose output terminal has the
/// wire that its `Terminal` tag declares, or none where it declares none. The block
/// takes the five events behind its tag.
pub proof fn law_start_block_entered(g: Gathered, tag: TagView, events: Seq<EventView>, idx: int)
    requires
        tag.name == "StartBlock"@,
        start_tag(g, tag, events, idx) is Ok,
    ensures
        ({
            let (after, next) = start_tag(g, tag, events, idx)->Ok_0;
            let id = required_value(tag.attributes, "Id"@);
            let terminal = empty_tag_at(events, idx + 3);
            &&& next == idx + 5
            &&& id is Ok
            &&& terminal is Ok
            &&& after.blocks.dom() == g.blocks.dom().insert(id->Ok_0)
            &&& forall|other: Seq<char>|
                other != id->Ok_0 && g.blocks.contains_key(other) ==> after.blocks[other] == g.blocks[other]
            &&& after.blocks[id->Ok_0].ty == BlockType::Start
            &&& after.blocks[id->Ok_0].sequence_in is None
            &&& after.blocks[id->Ok_0].sequence_out is Some
            &&& after.blocks[id->Ok_0].sequence_out->Some_0.ty == SequenceBlockType::Out
            &&& after.blocks[id->Ok_0].sequence_out->Some_0.wire_id == last_value(
                terminal->Ok_0.attributes,
                "Wire"@,
            )
            &&& after.wires == g.wires
            &&& after.version == g.version
            &&& after.decl == g.decl
        }),
{
    reveal(start_block);
    lemma_start_block_is_tried();
}

/// The names of the attributes that a sequence terminal must have differ.
pub proof fn lemma_terminal_names_differ()
    ensures
        "Direction"@ != "Id"@,
        "DataType"@ != "Id"@,
        "DataType"@ != "Direction"@,
{
    reveal_strlit("Id");
    reveal_strlit("Direction");
    reveal_strlit("DataType");
    assert("Id"@.len() == 2);
    assert("Direction"@.len() == 9);
    assert("DataType"@.len() == 8);
}

/// Where no attribute of a sequence terminal is complained about, `Id`, `Direction`
/// and `DataType` have the fixed values wherever they stand.
pub proof fn lemma_terminal_values(attrs: Seq<AttributeView>, ty: SequenceBlockType)
    requires
        first_error(attrs, TagKind::Terminal(ty)) is None,
    ensures
        last_value(attrs, "Id"@) matches Some(v) ==> v == terminal_id(ty),
        last_value(attrs, "Direction"@) matches Some(v) ==> v == terminal_direction(ty),
        last_value(attrs, "DataType"@) matches Some(v) ==> v == sequence_wire_type(),
    decreases attrs.len(),
{
    lemma_terminal_names_differ();
    if attrs.len() > 0 {
        lemma_terminal_values(attrs.drop_last(), ty);
    }
}

/// A sequence terminal that is read has its `Id`, its `Direction` and its `DataType`,
/// each with the value that the format fixes for its end, and its `Bounds`.
pub proof fn law_terminal_is_complete(attrs: Seq<AttributeView>, ty: SequenceBlockType)
    requires
        sequence_terminal(attrs, ty) is Ok,
    ensures
        last_value(attrs, "Id"@) == Some(terminal_id(ty)),
        last_value(attrs, "Direction"@) == Some(terminal_direction(ty)),
        last_value(attrs, "DataType"@) == Some(sequence_wire_type()),
        last_value(attrs, "Bounds"@) matches Some(b) && bounds_of(b) == Ok::<(usize, usize), ParseError>(
            sequence_terminal(attrs, ty)->Ok_0.bounds,
        ),
        sequence_terminal(attrs, ty)->Ok_0.wire_id == last_value(attrs, "Wire"@),
        sequence_terminal(attrs, ty)->Ok_0.ty == ty,
{
    lemma_terminal_values(attrs, ty);
}

/// A parse succeeds at the end of the file and nowhere else: the cursor comes to
/// stand behind an `EndOfStream` event, which lies further on than it set out.
pub proof fn law_parse_ends_at_the_end(g: Gathered, events: Seq<EventView>, idx: int)
    requires
        run(g, events, idx) is Ok,
    ensures
        ({
            let next = run(g, events, idx)->Ok_0.1;
            &&& 0 <= idx < next <= events.len()
            &&& events[next - 1] is EndOfStream
        }),
    decreases events.len() - idx,
{
    let s = step(g, events, idx)->Ok_0;
    lemma_step_advances(g, events, idx);
    if s.done {
        reveal(step);
    } else {
        law_parse_ends_at_the_end(s.gathered, events, s.next);
    }
}

/// Whether `after` holds all that `before` holds: the declaration and the version if
/// they were there, every wire as it was, and a block for every id that had one.
pub open spec fn keeps(after: Gathered, before: Gathered) -> bool {
    &&& before.decl is Some ==> after.decl == before.decl
    &&& before.version is Some ==> after.version == before.version
    &&& forall|id: Seq<char>| #[trigger]
        before.wires.contains_key(id) ==> after.wires.contains_key(id) && after.wires[id] == before.wires[id]
    &&& forall|id: Seq<char>| #[trigger] before.blocks.contains_key(id) ==> after.blocks.contains_key(id)
}

/// A start tag at the top level takes nothing away.
pub proof fn lemma_start_tag_keeps(g: Gathered, tag: TagView, events: Seq<EventView>, idx: int)
    requires
        start_tag(g, tag, events, idx) is Ok,
    ensures
        keeps(start_tag(g, tag, events, idx)->Ok_0.0, g),
{
}

/// An empty tag at the top level takes nothing away.
pub proof fn lemma_empty_tag_keeps(g: Gathered, tag: TagView)
    requires
        empty_tag(g, tag) is Ok,
    ensures
        keeps(empty_tag(g, tag)->Ok_0, g),
{
}

/// One event at the top level takes nothing away.
pub proof fn lemma_step_keeps(g: Gathered, events: Seq<EventView>, idx: int)
    requires
        step(g, events, idx) is Ok,
    ensures
        keeps(step(g, events, idx)->Ok_0.gathered, g),
{
    reveal(step);
    match events[idx] {
        EventView::StartTag(raw) => {
            lemma_start_tag_keeps(g, decoded_tag(raw)->Ok_0, events, idx + 1);
        },
        EventView::EmptyTag(raw) => {
            lemma_empty_tag_keeps(g, decoded_tag(raw)->Ok_0);
        },
        _ => {},
    }
}

/// Nothing that was gathered is lost or changed later, but for a block, which a later
/// block with the same id replaces: the declaration, the version and every wire stay
/// as they were first entered.
pub proof fn law_gathered_is_kept(g: Gathered, events: Seq<EventView>, idx: int)
    requires
        run(g, events, idx) is Ok,
    ensures
        keeps(run(g, events, idx)->Ok_0.0, g),
    decreases events.len() - idx,
{
    let s = step(g, events, idx)->Ok_0;
    lemma_step_keeps(g, events, idx);
    if !s.done {
        law_gathered_is_kept(s.gathered, events, s.next);
    }
}

/// One event at the top level leaves every block with the terminals of its kind.
pub proof fn lemma_step_keeps_blocks(g: Gathered, events: Seq<EventView>, idx: int)
    requires
        g.well_formed(),
        step(g, events, idx) is Ok,
    ensures
        step(g, events, idx)->Ok_0.gathered.well_formed(),
{
    reveal(step);
    reveal(start_block);
    reveal(method_call);
}

/// Whatever the events are, every block that is gathered has the terminals of its
/// kind: a start block an output terminal and no input terminal, a motor move both.
pub proof fn law_blocks_well_formed(g: Gathered, events: Seq<EventView>, idx: int)
    requires
        g.well_formed(),
        run(g, events, idx) is Ok,
    ensures
        run(g, events, idx)->Ok_0.0.well_formed(),
    decreases events.len() - idx,
{
    let s = step(g, events, idx)->Ok_0;
    lemma_step_keeps_blocks(g, events, idx);
    if !s.done {
        law_blocks_well_formed(s.gathered, events, s.next);
    }
}

/// Every block of a document has the terminals of its kind.
pub proof fn law_document_well_formed(name: Seq<char>, events: Seq<EventView>, id: Seq<char>)
    requires
        document_of(name, events) is Ok,
        document_of(name, events)->Ok_0.blocks.contains_key(id),
    ensures
        document_of(name, events)->Ok_0.blocks[id].well_formed(),
{
    law_blocks_well_formed(nothing(), events, 0);
}

} // verus!
