//! The document builder: a cursor over the events of one program file, and the
//! blocks and wires gathered from the events that the cursor has passed.
use crate::error::ParseError;
use crate::ev3::grammar::{
    any_empty_tag_at, block_attribute, bounds_of, built, empty_tag, empty_tag_at, end_tag_at,
    event_at, gathered_at_end, joint_of, joints_of, known_end_tag, lemma_step_advances, method_call,
    motor_arguments, motor_move, node_joints, nothing, run, sequence_blocks, sequence_terminal_at,
    start_block, start_tag, start_tag_at, step, ArgumentView, BlockType, BlockView, Gathered, Joint,
    MotorSettings, SequenceBlockType, SequenceView, TagKind, TagView, VersionView, WireView,
};
use crate::ev3::project::{File, Version};
use crate::ev3::tags::{
    apply_argument, check_attributes, decode_tag, parse_block_header, parse_terminal, parse_version,
    parse_wire_tag, required_from, Tag,
};
use crate::idmap::IdMap;
use crate::number::{parse_usize, usize_of};
use crate::text::{
    chars_of, position_of, ranges_cut, split, split_spec, split_words, str_eq, words,
};
use crate::utils::xml::{
    attribute_views, collect_to_vec, ends_stream, event_views, events_to_come,
    extract_name_from_qname, EventView,
    ParsedAttribute, XMLReader, XmlEvent,
};
use vstd::prelude::*;
use vstd::slice::slice_subrange;
use vstd::string::*;

verus! {

/// What an optional string holds.
pub open spec fn text_view(s: Option<String>) -> Option<Seq<char>> {
    match s {
        Some(s) => Some(s@),
        None => None,
    }
}

/// A sequence terminal: where a wire of the control flow meets a block.
#[derive(Debug, PartialEq, Eq)]
pub struct SequenceBlock {
    pub ty: SequenceBlockType,
    pub bounds: (usize, usize),
    pub wire_id: Option<String>,
}

impl View for SequenceBlock {
    type V = SequenceView;

    open spec fn view(&self) -> SequenceView {
        SequenceView { ty: self.ty, bounds: self.bounds, wire_id: text_view(self.wire_id) }
    }
}

/// What an optional sequence terminal holds.
pub open spec fn sequence_view(s: Option<SequenceBlock>) -> Option<SequenceView> {
    match s {
        Some(s) => Some(s@),
        None => None,
    }
}

/// A block of the diagram: the start of the program, which has an output terminal at
/// most, or a motor move, which has both terminals.
#[derive(Debug, PartialEq, Eq)]
pub struct Block {
    pub ty: BlockType,
    pub bounds: (usize, usize),
    pub sequence_in: Option<SequenceBlock>,
    pub sequence_out: Option<SequenceBlock>,
}

impl View for Block {
    type V = BlockView;

    open spec fn view(&self) -> BlockView {
        BlockView {
            ty: self.ty,
            bounds: self.bounds,
            sequence_in: sequence_view(self.sequence_in),
            sequence_out: sequence_view(self.sequence_out),
        }
    }
}

/// A wire of the control flow: the ids of the two terminals that its joints name.
#[derive(Clone, Debug, PartialEq, Eq)]
pub struct Wire {
    pub input: String,
    pub output: String,
}

impl View for Wire {
    type V = WireView;

    open spec fn view(&self) -> WireView {
        WireView { input: self.input@, output: self.output@ }
    }
}

/// One argument of a method call: the id of its terminal and the value configured.
#[derive(Clone, Debug, PartialEq, Eq)]
pub struct BlockAttribute {
    pub id: String,
    pub value: String,
}

impl View for BlockAttribute {
    type V = ArgumentView;

    open spec fn view(&self) -> ArgumentView {
        ArgumentView { id: self.id@, value: self.value@ }
    }
}

/// What a map of blocks holds.
pub open spec fn block_views(blocks: Map<Seq<char>, Block>) -> Map<Seq<char>, BlockView> {
    Map::new(|id: Seq<char>| blocks.contains_key(id), |id: Seq<char>| blocks[id]@)
}

/// What a map of wires holds.
pub open spec fn wire_views(wires: Map<Seq<char>, Wire>) -> Map<Seq<char>, WireView> {
    Map::new(|id: Seq<char>| wires.contains_key(id), |id: Seq<char>| wires[id]@)
}

/// What optional bytes hold.
pub open spec fn bytes_view(bytes: Option<Vec<u8>>) -> Option<Seq<u8>> {
    match bytes {
        Some(bytes) => Some(bytes@),
        None => None,
    }
}

/// What an optional version holds.
pub open spec fn version_view(version: Option<Version>) -> Option<VersionView> {
    match version {
        Some(version) => Some(version@),
        None => None,
    }
}

/// Reads the width and the height out of a geometry string `x y w h`.
pub fn parse_bounds(input: String) -> (r: Result<(usize, usize), ParseError>)
    ensures
        r == bounds_of(input@),
{
    let chars = chars_of(input.as_str());
    let ranges = split_words(chars.as_slice());
    if ranges.len() != 4 {
        return Err(ParseError::MalformedBounds);
    }
    let mut vals: Vec<usize> = Vec::new();
    let mut i: usize = 0;
    while i < 4
        invariant
            i <= 4,
            ranges@.len() == 4,
            chars@ == input@,
            ranges_cut(chars@, ranges@, words(input@)),
            vals@.len() == i,
            forall|j: int| 0 <= j < i ==> usize_of(words(input@)[j]) == Some(#[trigger] vals@[j]),
        decreases 4 - i,
    {
        let (from, to) = ranges[i];
        match parse_usize(slice_subrange(chars.as_slice(), from, to)) {
            Some(n) => vals.push(n),
            None => {
                return Err(ParseError::MalformedBounds);
            },
        }
        i += 1;
    }
    proof {
        let fields = words(input@);
        assert(usize_of(fields[0]) == Some(vals@[0]));
        assert(usize_of(fields[1]) == Some(vals@[1]));
        assert(usize_of(fields[2]) == Some(vals@[2]));
        assert(usize_of(fields[3]) == Some(vals@[3]));
    }
    Ok((vals[2], vals[3]))
}

/// Whether `slot` and `twice` record the ids `found`: the first of them, and whether
/// there was a second.
pub open spec fn slot_records(slot: Option<String>, twice: bool, found: Seq<Seq<char>>) -> bool {
    match slot {
        None => found.len() == 0 && !twice,
        Some(id) => found.len() >= 1 && id@ == found[0] && (twice <==> found.len() >= 2),
    }
}

/// One token of a joint string, read.
#[derive(Debug)]
pub enum JointToken {
    Other,
    Node(String, SequenceBlockType),
    Malformed,
}

impl View for JointToken {
    type V = Joint;

    open spec fn view(&self) -> Joint {
        match self {
            JointToken::Other => Joint::Other,
            JointToken::Node(id, role) => Joint::Node(id@, *role),
            JointToken::Malformed => Joint::Malformed,
        }
    }
}

/// Reads the token that stands in `val` from `from` up to `to`.
fn parse_joint(val: &str, chars: &[char], from: usize, to: usize) -> (r: JointToken)
    requires
        chars@ == val@,
        from <= to <= chars@.len(),
    ensures
        r@ == joint_of(val@.subrange(from as int, to as int)),
{
    let token = slice_subrange(chars, from, to);
    if token.len() == 0 {
        return JointToken::Malformed;
    }
    if token[0] != 'N' {
        return JointToken::Other;
    }
    let rest = slice_subrange(token, 1, token.len());
    assert(rest@ =~= token@.skip(1));
    let colon = position_of(rest, ':');
    let bracket = position_of(rest, ')');
    if !(1 <= colon && colon < bracket && bracket < rest.len()) {
        return JointToken::Malformed;
    }
    let id = val.substring_char(from + 2, from + 1 + colon);
    let role = val.substring_char(from + 2 + colon, from + 1 + bracket);
    assert(id@ =~= rest@.subrange(1, colon as int));
    assert(role@ =~= rest@.subrange(colon + 1, bracket as int));
    if str_eq(role, "SequenceIn") {
        JointToken::Node(id.to_owned(), SequenceBlockType::In)
    } else if str_eq(role, "SequenceOut") {
        JointToken::Node(id.to_owned(), SequenceBlockType::Out)
    } else {
        JointToken::Malformed
    }
}

/// Reads the ids of the input joint and of the output joint out of a joint string.
pub fn parse_joints(val: String) -> (r: Result<(String, String), ParseError>)
    ensures
        match (r, joints_of(val@)) {
            (Ok((input, output)), Ok((i, o))) => input@ == i && output@ == o,
            (Err(e), Err(d)) => e == d,
            _ => false,
        },
{
    let chars = chars_of(val.as_str());
    let ranges = split(chars.as_slice(), ' ');
    let ghost tokens = split_spec(val@, ' ');
    let mut seq_in: Option<String> = None;
    let mut seq_out: Option<String> = None;
    let mut twice_in = false;
    let mut twice_out = false;
    let mut i: usize = 0;
    while i < ranges.len()
        invariant
            i <= ranges@.len(),
            chars@ == val@,
            tokens == split_spec(val@, ' '),
            ranges_cut(chars@, ranges@, tokens),
            forall|j: int| 0 <= j < i ==> !(joint_of(#[trigger] tokens[j]) is Malformed),
            slot_records(seq_in, twice_in, node_joints(tokens.take(i as int), SequenceBlockType::In)),
            slot_records(seq_out, twice_out, node_joints(tokens.take(i as int), SequenceBlockType::Out)),
        decreases ranges.len() - i,
    {
        let (from, to) = ranges[i];
        assert(tokens.take(i + 1).drop_last() =~= tokens.take(i as int));
        assert(tokens.take(i + 1).last() == tokens[i as int]);
        match parse_joint(val.as_str(), chars.as_slice(), from, to) {
            JointToken::Malformed => {
                return Err(ParseError::MalformedJoints);
            },
            JointToken::Other => {},
            JointToken::Node(id, role) => match role {
                SequenceBlockType::In => {
                    if seq_in.is_some() {
                        twice_in = true;
                    } else {
                        seq_in = Some(id);
                    }
                },
                SequenceBlockType::Out => {
                    if seq_out.is_some() {
                        twice_out = true;
                    } else {
                        seq_out = Some(id);
                    }
                },
            },
        }
        i += 1;
    }
    assert(tokens.take(i as int) =~= tokens);
    if twice_in || twice_out {
        return Err(ParseError::MalformedJoints);
    }
    match (seq_in, seq_out) {
        (Some(input), Some(output)) => Ok((input, output)),
        _ => Err(ParseError::MalformedJoints),
    }
}

/// Builds the document of one file out of its events: a cursor over the events, and
/// what has been gathered from the events that the cursor has passed.
#[derive(Debug)]
pub struct FileBuilder {
    decl: Option<Vec<u8>>,
    version: Option<Version>,
    name: Option<String>,
    blocks: IdMap<Block>,
    wires: IdMap<Wire>,
    events: Vec<XmlEvent>,
    idx: usize,
}

impl Default for FileBuilder {
    /// A builder without events, with nothing gathered and no name.
    fn default() -> (r: Self)
        ensures
            r.events() == Seq::<EventView>::empty(),
            r.position() == 0,
            r.document_name() is None,
            r.gathered() == nothing(),
    {
        Self::from_events(Vec::new())
    }
}

impl FileBuilder {
    /// The cursor stands within the events or right behind them.
    #[verifier::type_invariant]
    pub closed spec fn well_formed(&self) -> bool {
        self.idx <= self.events@.len()
    }

    /// What the events of the file hold.
    pub closed spec fn events(&self) -> Seq<EventView> {
        event_views(self.events@)
    }

    /// The place of the event that comes next.
    pub closed spec fn position(&self) -> int {
        self.idx as int
    }

    /// The name given to the document, if one was given.
    pub closed spec fn document_name(&self) -> Option<Seq<char>> {
        text_view(self.name)
    }

    /// What was gathered from the events passed.
    pub closed spec fn gathered(&self) -> Gathered {
        Gathered {
            decl: bytes_view(self.decl),
            version: version_view(self.version),
            blocks: block_views(self.blocks@),
            wires: wire_views(self.wires@),
        }
    }

    /// Whether the cursor stands within the events or right behind them.
    pub open spec fn in_place(&self) -> bool {
        0 <= self.position() <= self.events().len()
    }

    /// Whether the builder has the events and the name of `before`, and its cursor
    /// stands within the events or right behind them.
    pub open spec fn same_file(&self, before: &FileBuilder) -> bool {
        &&& self.events() == before.events()
        &&& self.document_name() == before.document_name()
        &&& self.in_place()
    }

    /// Whether the builder differs from `before` in its place at most.
    pub open spec fn kept(&self, before: &FileBuilder) -> bool {
        &&& self.same_file(before)
        &&& self.gathered() == before.gathered()
    }

    /// Whether the builder differs from `before` in its place only, which is `next`.
    pub open spec fn moved(&self, before: &FileBuilder, next: int) -> bool {
        &&& self.kept(before)
        &&& self.position() == next
    }

    /// Reads the events of a file out of `xml` and makes a builder at the first of them,
    /// with nothing gathered and no name.
    pub fn from_xml(xml: XMLReader) -> (r: Result<Self, ParseError>)
        ensures
            match (r, events_to_come(xml)) {
                (Ok(builder), Some(events)) => {
                    &&& builder.events() == events
                    &&& ends_stream(events)
                    &&& builder.position() == 0
                    &&& builder.document_name() is None
                    &&& builder.gathered() == nothing()
                },
                (Err(e), None) => e == ParseError::InvalidXml,
                _ => false,
            },
    {
        let events = collect_to_vec(xml)?;
        Ok(Self::from_events(events))
    }

    /// A builder at the first of `events`, with nothing gathered and no name.
    pub fn from_events(events: Vec<XmlEvent>) -> (r: Self)
        ensures
            r.events() == event_views(events@),
            r.position() == 0,
            r.document_name() is None,
            r.gathered() == nothing(),
    {
        let r = FileBuilder {
            decl: None,
            version: None,
            name: None,
            blocks: IdMap::new(),
            wires: IdMap::new(),
            events,
            idx: 0,
        };
        assert(block_views(r.blocks@) =~= Map::empty());
        assert(wire_views(r.wires@) =~= Map::empty());
        r
    }

    /// The next event, which the cursor passes.
    pub fn next_event(&mut self) -> (r: Result<&XmlEvent, ParseError>)
        ensures
            match r {
                Ok(event) => event_at(old(self).events(), old(self).position()) == Ok::<EventView, ParseError>(
                    event@,
                ) && final(self).moved(old(self), old(self).position() + 1),
                Err(e) => event_at(old(self).events(), old(self).position()) == Err::<EventView, ParseError>(e)
                    && final(self).moved(old(self), old(self).position()),
            },
    {
        proof {
            use_type_invariant(&*self);
        }
        if self.idx < self.events.len() {
            let i = self.idx;
            self.idx = i + 1;
            Ok(&self.events[i])
        } else {
            Err(ParseError::EndOfStream)
        }
    }

    /// The next event, which the cursor does not pass.
    pub fn peek_event(&self) -> (r: Result<&XmlEvent, ParseError>)
        ensures
            self.in_place(),
            match r {
                Ok(event) => event_at(self.events(), self.position()) == Ok::<EventView, ParseError>(event@),
                Err(e) => event_at(self.events(), self.position()) == Err::<EventView, ParseError>(e),
            },
    {
        proof {
            use_type_invariant(&*self);
        }
        if self.idx < self.events.len() {
            Ok(&self.events[self.idx])
        } else {
            Err(ParseError::EndOfStream)
        }
    }

    /// Passes a start tag and decodes it.
    fn next_start_tag(&mut self) -> (r: Result<Tag, ParseError>)
        ensures
            final(self).kept(old(self)),
            match (r, start_tag_at(old(self).events(), old(self).position())) {
                (Ok(tag), Ok(t)) => tag@ == t && final(self).moved(old(self), old(self).position() + 1),
                (Err(e), Err(d)) => e == d,
                _ => false,
            },
    {
        proof {
            use_type_invariant(&*self);
        }
        match self.next_event()? {
            XmlEvent::StartTag(tag) => decode_tag(tag),
            _ => Err(ParseError::UnexpectedStructure),
        }
    }

    /// Passes an empty tag and decodes it.
    fn next_empty_tag(&mut self) -> (r: Result<Tag, ParseError>)
        ensures
            final(self).kept(old(self)),
            match (r, empty_tag_at(old(self).events(), old(self).position())) {
                (Ok(tag), Ok(t)) => tag@ == t && final(self).moved(old(self), old(self).position() + 1),
                (Err(e), Err(d)) => e == d,
                _ => false,
            },
    {
        proof {
            use_type_invariant(&*self);
        }
        match self.next_event()? {
            XmlEvent::EmptyTag(tag) => decode_tag(tag),
            _ => Err(ParseError::UnexpectedStructure),
        }
    }

    /// Passes an empty tag without looking at what it holds.
    fn next_any_empty_tag(&mut self) -> (r: Result<(), ParseError>)
        ensures
            final(self).kept(old(self)),
            r == any_empty_tag_at(old(self).events(), old(self).position()),
            r is Ok ==> final(self).moved(old(self), old(self).position() + 1),
    {
        proof {
            use_type_invariant(&*self);
        }
        match self.next_event()? {
            XmlEvent::EmptyTag(_) => Ok(()),
            _ => Err(ParseError::UnexpectedStructure),
        }
    }

    /// Passes an end tag, which must have the name `name` and no prefix.
    fn next_end_tag(&mut self, name: &str) -> (r: Result<(), ParseError>)
        ensures
            final(self).kept(old(self)),
            r == end_tag_at(old(self).events(), old(self).position(), name@),
            r is Ok ==> final(self).moved(old(self), old(self).position() + 1),
    {
        proof {
            use_type_invariant(&*self);
        }
        match self.next_event()? {
            XmlEvent::EndTag(qname) => {
                let (found, prefix) = extract_name_from_qname(qname.as_slice())?;
                if prefix.is_none() && str_eq(found.as_str(), name) {
                    Ok(())
                } else {
                    Err(ParseError::UnexpectedStructure)
                }
            },
            _ => Err(ParseError::UnexpectedStructure),
        }
    }

    /// Passes the empty `Terminal` tag of a sequence terminal.
    fn next_terminal(&mut self, ty: SequenceBlockType) -> (r: Result<SequenceBlock, ParseError>)
        ensures
            final(self).kept(old(self)),
            match (r, sequence_terminal_at(old(self).events(), old(self).position(), ty)) {
                (Ok(terminal), Ok(t)) => terminal@ == t && final(self).moved(
                    old(self),
                    old(self).position() + 1,
                ),
                (Err(e), Err(d)) => e == d,
                _ => false,
            },
    {
        proof {
            use_type_invariant(&*self);
        }
        let tag = self.next_empty_tag()?;
        if !(tag.prefix.is_none() && str_eq(tag.name.as_str(), "Terminal")) {
            return Err(ParseError::UnexpectedStructure);
        }
        parse_terminal(&tag.attributes, ty)
    }

    /// Reads the two sequence terminals of a method call: the input, then the output.
    pub fn parse_method_sequence_blocks(&mut self) -> (r: Result<(SequenceBlock, SequenceBlock), ParseError>)
        ensures
            final(self).kept(old(self)),
            match (r, sequence_blocks(old(self).events(), old(self).position())) {
                (Ok((input, output)), Ok((i, o))) => input@ == i && output@ == o && final(self).moved(
                    old(self),
                    old(self).position() + 2,
                ),
                (Err(e), Err(d)) => e == d,
                _ => false,
            },
    {
        proof {
            use_type_invariant(&*self);
        }
        let sequence_in = self.next_terminal(SequenceBlockType::In)?;
        let sequence_out = self.next_terminal(SequenceBlockType::Out)?;
        Ok((sequence_in, sequence_out))
    }

    /// Reads a start block, whose tag has been passed: the id of the block and the block.
    pub fn parse_start_block(&mut self, attributes: Vec<ParsedAttribute>) -> (r: Result<
        (String, Block),
        ParseError,
    >)
        ensures
            final(self).kept(old(self)),
            match (r, start_block(attribute_views(attributes@), old(self).events(), old(self).position())) {
                (Ok((id, block)), Ok((i, b, next))) => id@ == i && block@ == b && final(self).moved(
                    old(self),
                    next,
                ),
                (Err(e), Err(d)) => e == d,
                _ => false,
            },
    {
        proof {
            use_type_invariant(&*self);
        }
        reveal(start_block);
        let (id, bounds) = parse_block_header(&attributes, TagKind::StartBlock)?;
        let tag = self.next_start_tag()?;
        if !(tag.attributes.len() == 0 && tag.prefix.is_none() && str_eq(
            tag.name.as_str(),
            "ConfigurableMethodTerminal",
        )) {
            return Err(ParseError::UnexpectedStructure);
        }
        self.next_any_empty_tag()?;
        self.next_end_tag("ConfigurableMethodTerminal")?;
        let sequence_out = self.next_terminal(SequenceBlockType::Out)?;
        self.next_end_tag("StartBlock")?;
        let block = Block {
            ty: BlockType::Start,
            bounds,
            sequence_in: None,
            sequence_out: Some(sequence_out),
        };
        Ok((id, block))
    }

    /// Reads one argument of a method call, or finds that the next event is no start
    /// tag, which ends the list of arguments.
    pub fn parse_block_attribute(&mut self) -> (r: Result<Option<BlockAttribute>, ParseError>)
        ensures
            final(self).kept(old(self)),
            match (r, block_attribute(old(self).events(), old(self).position())) {
                (Ok(Some(arg)), Ok(Some(a))) => arg@ == a && final(self).moved(
                    old(self),
                    old(self).position() + 3,
                ) && old(self).position() + 3 <= old(self).events().len(),
                (Ok(None), Ok(None)) => final(self).moved(old(self), old(self).position()),
                (Err(e), Err(d)) => e == d,
                _ => false,
            },
    {
        proof {
            use_type_invariant(&*self);
        }
        match self.peek_event()? {
            XmlEvent::StartTag(_) => {},
            _ => {
                return Ok(None);
            },
        }
        let tag = self.next_start_tag()?;
        if !(tag.prefix.is_none() && str_eq(tag.name.as_str(), "ConfigurableMethodTerminal")
            && tag.attributes.len() == 1 && str_eq(tag.attributes[0].key.0.as_str(), "ConfiguredValue")) {
            return Err(ParseError::UnexpectedStructure);
        }
        let value = tag.attributes[0].value.clone();
        let terminal = self.next_empty_tag()?;
        if !(terminal.prefix.is_none() && str_eq(terminal.name.as_str(), "Terminal")) {
            return Err(ParseError::UnexpectedStructure);
        }
        check_attributes(&terminal.attributes, TagKind::Argument)?;
        let id = required_from(&terminal.attributes, "Id")?;
        self.next_end_tag("ConfigurableMethodTerminal")?;
        Ok(Some(BlockAttribute { id, value }))
    }

    /// Reads a motor move, whose arguments come next: the arguments, then the two
    /// sequence terminals.
    pub fn parse_motor_move(&mut self, bounds: (usize, usize)) -> (r: Result<Block, ParseError>)
        ensures
            final(self).kept(old(self)),
            match (r, motor_move(bounds, old(self).events(), old(self).position())) {
                (Ok(block), Ok((b, next))) => block@ == b && final(self).moved(old(self), next),
                (Err(e), Err(d)) => e == d,
                _ => false,
            },
    {
        proof {
            use_type_invariant(&*self);
        }
        let mut settings = MotorSettings { ports: None, steering: None, speed: None };
        loop
            invariant
                self.moved(old(self), self.position()),
                motor_arguments(
                    old(self).events(),
                    old(self).position(),
                    MotorSettings { ports: None, steering: None, speed: None },
                ) == motor_arguments(self.events(), self.position(), settings),
            ensures
                self.moved(old(self), self.position()),
                motor_arguments(
                    old(self).events(),
                    old(self).position(),
                    MotorSettings { ports: None, steering: None, speed: None },
                ) == Ok::<(MotorSettings, int), ParseError>((settings, self.position())),
            decreases self.events().len() - self.position(),
        {
            match self.parse_block_attribute()? {
                Some(arg) => {
                    settings = apply_argument(settings, &arg)?;
                },
                None => {
                    break ;
                },
            }
        }
        let (ports, steering, speed) = match (settings.ports, settings.steering, settings.speed) {
            (Some(ports), Some(steering), Some(speed)) => (ports, steering, speed),
            _ => {
                return Err(ParseError::MissingRequiredField);
            },
        };
        let (sequence_in, sequence_out) = self.parse_method_sequence_blocks()?;
        Ok(
            Block {
                ty: BlockType::MotorMove { ports, steering, speed },
                bounds,
                sequence_in: Some(sequence_in),
                sequence_out: Some(sequence_out),
            },
        )
    }

    /// Reads a method call, whose tag has been passed: the id of the block and the block.
    pub fn parse_method_call(&mut self, attributes: Vec<ParsedAttribute>) -> (r: Result<
        (String, Block),
        ParseError,
    >)
        ensures
            final(self).kept(old(self)),
            match (r, method_call(attribute_views(attributes@), old(self).events(), old(self).position())) {
                (Ok((id, block)), Ok((i, b, next))) => id@ == i && block@ == b && final(self).moved(
                    old(self),
                    next,
                ),
                (Err(e), Err(d)) => e == d,
                _ => false,
            },
    {
        proof {
            use_type_invariant(&*self);
        }
        reveal(method_call);
        let (id, bounds) = parse_block_header(&attributes, TagKind::MethodCall)?;
        let target = required_from(&attributes, "Target")?;
        if !str_eq(target.as_str(), "MoveUnlimited.vix") {
            return Err(ParseError::UnknownMethodTarget);
        }
        let block = self.parse_motor_move(bounds)?;
        self.next_end_tag("ConfigurableMethodCall")?;
        Ok((id, block))
    }

    /// Gives the document its name, which it must not have yet.
    pub fn name(&mut self, name: String) -> (r: Result<(), ParseError>)
        ensures
            final(self).in_place(),
            final(self).events() == old(self).events(),
            final(self).position() == old(self).position(),
            final(self).gathered() == old(self).gathered(),
            match r {
                Ok(()) => old(self).document_name() is None && final(self).document_name() == Some(name@),
                Err(e) => e == ParseError::DuplicateName && old(self).document_name() is Some
                    && final(self).document_name() == old(self).document_name(),
            },
    {
        proof {
            use_type_invariant(&*self);
        }
        if self.name.is_some() {
            return Err(ParseError::DuplicateName);
        }
        self.name = Some(name);
        Ok(())
    }

    /// Enters the version, which must be the first.
    fn version(&mut self, version: Version) -> (r: Result<(), ParseError>)
        ensures
            final(self).same_file(old(self)),
            final(self).position() == old(self).position(),
            match r {
                Ok(()) => old(self).gathered().version is None && final(self).gathered() == (Gathered {
                    version: Some(version@),
                    ..old(self).gathered()
                }),
                Err(e) => e == ParseError::DuplicateVersion && old(self).gathered().version is Some
                    && final(self).gathered() == old(self).gathered(),
            },
    {
        proof {
            use_type_invariant(&*self);
        }
        if self.version.is_some() {
            return Err(ParseError::DuplicateVersion);
        }
        self.version = Some(version);
        Ok(())
    }

    /// Enters the XML declaration, which must be the first.
    fn decl(&mut self, decl: Vec<u8>) -> (r: Result<(), ParseError>)
        ensures
            final(self).same_file(old(self)),
            final(self).position() == old(self).position(),
            match r {
                Ok(()) => old(self).gathered().decl is None && final(self).gathered() == (Gathered {
                    decl: Some(decl@),
                    ..old(self).gathered()
                }),
                Err(e) => e == ParseError::DuplicateDeclaration && old(self).gathered().decl is Some
                    && final(self).gathered() == old(self).gathered(),
            },
    {
        proof {
            use_type_invariant(&*self);
        }
        if self.decl.is_some() {
            return Err(ParseError::DuplicateDeclaration);
        }
        self.decl = Some(decl);
        Ok(())
    }

    /// Enters a block under its id, in place of a block that had the id before.
    fn enter_block(&mut self, id: String, block: Block)
        ensures
            final(self).same_file(old(self)),
            final(self).position() == old(self).position(),
            final(self).gathered() == (Gathered {
                blocks: old(self).gathered().blocks.insert(id@, block@),
                ..old(self).gathered()
            }),
    {
        proof {
            use_type_invariant(&*self);
        }
        let mut blocks: IdMap<Block> = IdMap::new();
        core::mem::swap(&mut self.blocks, &mut blocks);
        blocks.insert(id, block);
        assert(block_views(blocks@) =~= block_views(old(self).blocks@).insert(id@, block@));
        self.blocks = blocks;
    }

    /// Handles a start tag at the top level, which has been passed.
    pub fn parse_start_tag(
        &mut self,
        name: String,
        prefix: Option<String>,
        attributes: Vec<ParsedAttribute>,
    ) -> (r: Result<(), ParseError>)
        ensures
            final(self).same_file(old(self)),
            match (
                r,
                start_tag(
                    old(self).gathered(),
                    TagView {
                        name: name@,
                        prefix: text_view(prefix),
                        attributes: attribute_views(attributes@),
                    },
                    old(self).events(),
                    old(self).position(),
                ),
            ) {
                (Ok(()), Ok((g, next))) => final(self).gathered() == g && final(self).position() == next,
                (Err(e), Err(d)) => e == d && final(self).gathered() == old(self).gathered(),
                _ => false,
            },
    {
        proof {
            use_type_invariant(&*self);
        }
        let tag = name.as_str();
        if str_eq(tag, "SourceFile") {
            if prefix.is_some() {
                return Err(ParseError::UnexpectedStructure);
            }
            let version = parse_version(&attributes)?;
            self.version(version)
        } else if str_eq(tag, "Namespace") {
            if prefix.is_some() {
                return Err(ParseError::UnexpectedStructure);
            }
            check_attributes(&attributes, TagKind::Namespace)
        } else if str_eq(tag, "VirtualInstrument") || str_eq(tag, "FrontPanel") {
            Ok(())
        } else if str_eq(tag, "BlockDiagram") {
            check_attributes(&attributes, TagKind::BlockDiagram)
        } else if str_eq(tag, "StartBlock") {
            if prefix.is_some() {
                return Err(ParseError::UnexpectedStructure);
            }
            let (id, block) = self.parse_start_block(attributes)?;
            self.enter_block(id, block);
            Ok(())
        } else if str_eq(tag, "ConfigurableMethodCall") {
            if prefix.is_some() {
                return Err(ParseError::UnexpectedStructure);
            }
            let (id, block) = self.parse_method_call(attributes)?;
            self.enter_block(id, block);
            Ok(())
        } else if str_eq(tag, "Icon") || str_eq(tag, "IconPanel") || str_eq(tag, "AnimationProperties.Animations")
            || str_eq(tag, "EventProperties.Events") {
            Ok(())
        } else {
            Err(ParseError::UnknownTag)
        }
    }

    /// Handles an end tag at the top level: the closing tags of the known containers pass.
    pub fn parse_end_tag(&mut self, name: String, prefix: Option<String>) -> (r: Result<(), ParseError>)
        ensures
            final(self).moved(old(self), old(self).position()),
            r == if known_end_tag(name@) {
                Ok::<(), ParseError>(())
            } else {
                Err(ParseError::UnknownTag)
            },
    {
        proof {
            use_type_invariant(&*self);
        }
        let tag = name.as_str();
        if str_eq(tag, "FrontPanel") || str_eq(tag, "BlockDiagram") || str_eq(
            tag,
            "AnimationProperties.Animations",
        ) || str_eq(tag, "EventProperties.Events") || str_eq(tag, "IconPanel") || str_eq(tag, "Icon")
            || str_eq(tag, "VirtualInstrument") || str_eq(tag, "Namespace") || str_eq(tag, "SourceFile") {
            Ok(())
        } else {
            Err(ParseError::UnknownTag)
        }
    }

    /// Handles an empty tag at the top level: a wire is entered, a known container passes.
    pub fn parse_empty_tag(
        &mut self,
        name: String,
        prefix: Option<String>,
        attributes: Vec<ParsedAttribute>,
    ) -> (r: Result<(), ParseError>)
        ensures
            final(self).same_file(old(self)),
            final(self).position() == old(self).position(),
            match (
                r,
                empty_tag(
                    old(self).gathered(),
                    TagView {
                        name: name@,
                        prefix: text_view(prefix),
                        attributes: attribute_views(attributes@),
                    },
                ),
            ) {
                (Ok(()), Ok(g)) => final(self).gathered() == g,
                (Err(e), Err(d)) => e == d && final(self).gathered() == old(self).gathered(),
                _ => false,
            },
    {
        proof {
            use_type_invariant(&*self);
        }
        let tag = name.as_str();
        if str_eq(tag, "FrontPanelCanvas") || str_eq(tag, "AnimationsContainer") || str_eq(tag, "EventContainer") {
            Ok(())
        } else if str_eq(tag, "Wire") {
            let (id, wire) = parse_wire_tag(attributes)?;
            if self.wires.contains_key(id.as_str()) {
                return Err(ParseError::DuplicateWireId);
            }
            let mut wires: IdMap<Wire> = IdMap::new();
            core::mem::swap(&mut self.wires, &mut wires);
            wires.insert(id, wire);
            assert(wire_views(wires@) =~= wire_views(old(self).wires@).insert(id@, wire@));
            self.wires = wires;
            Ok(())
        } else {
            Err(ParseError::UnknownTag)
        }
    }

    /// Handles the next event at the top level, with the events that belong to it, and
    /// says whether it was the end of the file.
    pub fn parse_event(&mut self) -> (r: Result<bool, ParseError>)
        ensures
            final(self).same_file(old(self)),
            match (r, step(old(self).gathered(), old(self).events(), old(self).position())) {
                (Ok(done), Ok(s)) => {
                    &&& done == s.done
                    &&& final(self).gathered() == s.gathered
                    &&& final(self).position() == s.next
                },
                (Err(e), Err(d)) => e == d && final(self).gathered() == old(self).gathered(),
                _ => false,
            },
    {
        proof {
            use_type_invariant(&*self);
        }
        reveal(step);
        match self.next_event()? {
            XmlEvent::StartTag(tag) => {
                let tag = decode_tag(tag)?;
                self.parse_start_tag(tag.name, tag.prefix, tag.attributes)?;
                Ok(false)
            },
            XmlEvent::EndTag(name) => {
                let (name, prefix) = extract_name_from_qname(name.as_slice())?;
                self.parse_end_tag(name, prefix)?;
                Ok(false)
            },
            XmlEvent::EmptyTag(tag) => {
                let tag = decode_tag(tag)?;
                self.parse_empty_tag(tag.name, tag.prefix, tag.attributes)?;
                Ok(false)
            },
            XmlEvent::Text(_) => Err(ParseError::UnexpectedText),
            XmlEvent::Comment => Ok(false),
            XmlEvent::CData => Err(ParseError::UnexpectedStructure),
            XmlEvent::Declaration(content) => {
                let content = content.clone();
                self.decl(content)?;
                Ok(false)
            },
            XmlEvent::ProcessingInstruction => Err(ParseError::UnexpectedStructure),
            XmlEvent::DocType => Err(ParseError::UnexpectedStructure),
            XmlEvent::EndOfStream => Ok(true),
        }
    }

    /// Handles the events from the cursor on, one after the other, up to the end of the
    /// file. The first event that is an error ends the parse with that error.
    pub fn parse(&mut self) -> (r: Result<(), ParseError>)
        ensures
            final(self).same_file(old(self)),
            match (r, run(old(self).gathered(), old(self).events(), old(self).position())) {
                (Ok(()), Ok((g, next))) => final(self).gathered() == g && final(self).position() == next,
                (Err(e), Err(d)) => e == d,
                _ => false,
            },
            final(self).gathered() == gathered_at_end(
                old(self).gathered(),
                old(self).events(),
                old(self).position(),
            ),
    {
        proof {
            use_type_invariant(&*self);
        }
        loop
            invariant
                self.same_file(old(self)),
                run(old(self).gathered(), old(self).events(), old(self).position()) == run(
                    self.gathered(),
                    self.events(),
                    self.position(),
                ),
                gathered_at_end(old(self).gathered(), old(self).events(), old(self).position())
                    == gathered_at_end(self.gathered(), self.events(), self.position()),
            decreases self.events().len() - self.position(),
        {
            proof {
                lemma_step_advances(self.gathered(), self.events(), self.position());
            }
            if self.parse_event()? {
                return Ok(());
            }
        }
    }

    /// Hands out the finished document. Name, version and declaration must be there.
    pub fn build(self) -> (r: Result<File, ParseError>)
        ensures
            match (r, built(self.document_name(), self.gathered())) {
                (Ok(file), Ok(d)) => file@ == d,
                (Err(e), Err(d)) => e == d,
                _ => false,
            },
    {
        let name = match self.name {
            Some(name) => name,
            None => {
                return Err(ParseError::MissingRequiredField);
            },
        };
        let version = match self.version {
            Some(version) => version,
            None => {
                return Err(ParseError::MissingRequiredField);
            },
        };
        let decl = match self.decl {
            Some(decl) => decl,
            None => {
                return Err(ParseError::MissingRequiredField);
            },
        };
        Ok(File { name, version, decl, blocks: self.blocks, wires: self.wires })
    }
}

} // verus!
