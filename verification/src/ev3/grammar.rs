//! What the events of a program file mean: the document that they describe, or the
//! error of the first event that is none of the format.
//!
//! Nothing here is executable. The functions follow the events in their order:
//! [`run`] takes one event at the top level after the other, [`step`] says what one of
//! them does, and the functions before it say what stands inside a block. The lemmas
//! at the end are what the builder needs to know of them.
use crate::error::ParseError;
use crate::number::{isize_of, usize_of};
use crate::text::{find_first, split_spec, words};
use crate::utils::xml::{decoded_attributes, decoded_name, AttributeView, EventView, TagBytes};
use vstd::prelude::*;

verus! {

/// Which end of a block a sequence terminal is.
#[derive(Clone, Copy, Debug, PartialEq, Eq, Structural)]
pub enum SequenceBlockType {
    In,
    Out,
}

/// What a geometry string `x y w h` gives: width and height. The string is four
/// fields with white space between them, each an unsigned number that fits a `usize`.
pub open spec fn bounds_of(input: Seq<char>) -> Result<(usize, usize), ParseError> {
    let fields = words(input);
    if fields.len() == 4 && usize_of(fields[0]) is Some && usize_of(fields[1]) is Some && usize_of(
        fields[2],
    ) is Some && usize_of(fields[3]) is Some {
        Ok((usize_of(fields[2])->Some_0, usize_of(fields[3])->Some_0))
    } else {
        Err(ParseError::MalformedBounds)
    }
}

/// What one token of a joint string says.
pub enum Joint {
    /// A joint that is no sequence joint: it is passed over.
    Other,
    /// A node joint: the id of the terminal and its role.
    Node(Seq<char>, SequenceBlockType),
    /// A token that is no joint, or a node joint with a role that is not known.
    Malformed,
}

/// Reads one token `<kind>(<id>:<role>)`. Only the kind `N` is looked into: its id is
/// what stands between the second character and the first colon, its role what stands
/// between that colon and the first closing bracket.
pub open spec fn joint_of(token: Seq<char>) -> Joint {
    if token.len() == 0 {
        Joint::Malformed
    } else if token[0] != 'N' {
        Joint::Other
    } else {
        let rest = token.skip(1);
        let colon = find_first(rest, ':');
        let bracket = find_first(rest, ')');
        if 1 <= colon < bracket < rest.len() {
            let id = rest.subrange(1, colon);
            let role = rest.subrange(colon + 1, bracket);
            if role == "SequenceIn"@ {
                Joint::Node(id, SequenceBlockType::In)
            } else if role == "SequenceOut"@ {
                Joint::Node(id, SequenceBlockType::Out)
            } else {
                Joint::Malformed
            }
        } else {
            Joint::Malformed
        }
    }
}

/// The ids of the node joints with the role `role` among `tokens`, in their order.
pub open spec fn node_joints(tokens: Seq<Seq<char>>, role: SequenceBlockType) -> Seq<Seq<char>>
    decreases tokens.len(),
{
    if tokens.len() == 0 {
        Seq::empty()
    } else {
        let front = node_joints(tokens.drop_last(), role);
        match joint_of(tokens.last()) {
            Joint::Node(id, r) => if r == role {
                front.push(id)
            } else {
                front
            },
            _ => front,
        }
    }
}

/// What a joint string gives: the id of the one input joint and the id of the one
/// output joint. The string is tokens with one space between them; none may be
/// malformed, and each of the two roles must occur exactly once.
pub open spec fn joints_of(input: Seq<char>) -> Result<(Seq<char>, Seq<char>), ParseError> {
    let tokens = split_spec(input, ' ');
    let inputs = node_joints(tokens, SequenceBlockType::In);
    let outputs = node_joints(tokens, SequenceBlockType::Out);
    if (forall|i: int| 0 <= i < tokens.len() ==> !(joint_of(#[trigger] tokens[i]) is Malformed))
        && inputs.len() == 1 && outputs.len() == 1 {
        Ok((inputs[0], outputs[0]))
    } else {
        Err(ParseError::MalformedJoints)
    }
}

/// What kind of block a block is, with what only that kind has.
#[derive(Clone, Copy, Debug, PartialEq, Eq)]
pub enum BlockType {
    /// Where the program starts.
    Start,
    /// A motor move: the two ports, the steering and the speed.
    MotorMove { ports: (char, char), steering: isize, speed: usize },
}

/// A sequence terminal: where a wire of the control flow meets a block.
pub struct SequenceView {
    pub ty: SequenceBlockType,
    pub bounds: (usize, usize),
    pub wire_id: Option<Seq<char>>,
}

/// A block of the diagram.
pub struct BlockView {
    pub ty: BlockType,
    pub bounds: (usize, usize),
    pub sequence_in: Option<SequenceView>,
    pub sequence_out: Option<SequenceView>,
}

impl BlockView {
    /// Whether the block has the terminals of its kind: a start block has no input
    /// terminal, a motor move has both terminals; an input terminal is an input, and
    /// an output terminal an output.
    pub open spec fn well_formed(self) -> bool {
        &&& match self.ty {
            BlockType::Start => self.sequence_in is None,
            BlockType::MotorMove { .. } => self.sequence_in is Some && self.sequence_out is Some,
        }
        &&& (self.sequence_in matches Some(t) ==> t.ty == SequenceBlockType::In)
        &&& (self.sequence_out matches Some(t) ==> t.ty == SequenceBlockType::Out)
    }
}

/// A wire: the ids of the two terminals named by its joints.
pub struct WireView {
    pub input: Seq<char>,
    pub output: Seq<char>,
}

/// The version of the format and its namespace.
pub struct VersionView {
    pub number: Seq<char>,
    pub namespace: Seq<char>,
}

/// What has been gathered of a document so far.
pub struct Gathered {
    pub decl: Option<Seq<u8>>,
    pub version: Option<VersionView>,
    pub blocks: Map<Seq<char>, BlockView>,
    pub wires: Map<Seq<char>, WireView>,
}

impl Gathered {
    /// Whether every block gathered has the terminals of its kind.
    pub open spec fn well_formed(self) -> bool {
        forall|id: Seq<char>| self.blocks.contains_key(id) ==> (#[trigger] self.blocks[id]).well_formed()
    }
}

/// A tag as text.
pub struct TagView {
    pub name: Seq<char>,
    pub prefix: Option<Seq<char>>,
    pub attributes: Seq<AttributeView>,
}

/// The value of the last attribute named `name`, if there is one.
pub open spec fn last_value(attrs: Seq<AttributeView>, name: Seq<char>) -> Option<Seq<char>>
    decreases attrs.len(),
{
    if attrs.len() == 0 {
        None
    } else if attrs.last().name == name {
        Some(attrs.last().value)
    } else {
        last_value(attrs.drop_last(), name)
    }
}

/// The tags whose attributes are held against a list of names.
#[derive(Clone, Copy, Debug, PartialEq, Eq, Structural)]
pub enum TagKind {
    SourceFile,
    Namespace,
    BlockDiagram,
    StartBlock,
    MethodCall,
    /// The terminal that carries the name of an argument of a method call.
    Argument,
    /// A sequence terminal.
    Terminal(SequenceBlockType),
    Wire,
}

/// The data type that every sequence terminal has.
pub open spec fn sequence_wire_type() -> Seq<char> {
    "NationalInstruments:SourceModel:DataTypes:X3SequenceWireDataType"@
}

/// The id that a sequence terminal of the given end has.
pub open spec fn terminal_id(ty: SequenceBlockType) -> Seq<char> {
    match ty {
        SequenceBlockType::In => "SequenceIn"@,
        SequenceBlockType::Out => "SequenceOut"@,
    }
}

/// The direction that a sequence terminal of the given end has.
pub open spec fn terminal_direction(ty: SequenceBlockType) -> Seq<char> {
    match ty {
        SequenceBlockType::In => "Input"@,
        SequenceBlockType::Out => "Output"@,
    }
}

/// The complaint about a value that must be `expected`.
pub open spec fn must_be(value: Seq<char>, expected: Seq<char>) -> Option<ParseError> {
    if value == expected {
        None
    } else {
        Some(ParseError::UnexpectedStructure)
    }
}

/// The complaint about a geometry string, if it is malformed.
pub open spec fn bounds_error(value: Seq<char>) -> Option<ParseError> {
    match bounds_of(value) {
        Ok(_) => None,
        Err(e) => Some(e),
    }
}

/// The complaint about a joint string, if it is malformed.
pub open spec fn joints_error(value: Seq<char>) -> Option<ParseError> {
    match joints_of(value) {
        Ok(_) => None,
        Err(e) => Some(e),
    }
}

/// What is wrong with one attribute of a tag of the given kind, if anything: a name
/// that the tag does not admit, or a value other than the one that the format fixes.
pub open spec fn attribute_error(kind: TagKind, a: AttributeView) -> Option<ParseError> {
    match kind {
        TagKind::SourceFile => if a.name == "Version"@ || a.name == "xmlns"@ {
            None
        } else {
            Some(ParseError::UnknownAttribute)
        },
        TagKind::Namespace => if a.name == "Name"@ {
            must_be(a.value, "Project"@)
        } else {
            None
        },
        TagKind::BlockDiagram => if a.name == "Name"@ {
            must_be(a.value, "__RootDiagram__"@)
        } else {
            Some(ParseError::UnknownAttribute)
        },
        TagKind::StartBlock | TagKind::MethodCall => if a.name == "Id"@ || a.name == "Target"@ {
            None
        } else if a.name == "Bounds"@ {
            bounds_error(a.value)
        } else {
            Some(ParseError::UnknownAttribute)
        },
        TagKind::Argument => if a.name == "Id"@ || a.name == "Direction"@ || a.name == "DataType"@
            || a.name == "Hotspot"@ || a.name == "Bounds"@ {
            None
        } else {
            Some(ParseError::UnknownAttribute)
        },
        TagKind::Terminal(ty) => if a.name == "Id"@ {
            must_be(a.value, terminal_id(ty))
        } else if a.name == "Direction"@ {
            must_be(a.value, terminal_direction(ty))
        } else if a.name == "DataType"@ {
            must_be(a.value, sequence_wire_type())
        } else if a.name == "Wire"@ || a.name == "Hotspot"@ {
            None
        } else if a.name == "Bounds"@ {
            bounds_error(a.value)
        } else {
            Some(ParseError::UnknownAttribute)
        },
        TagKind::Wire => if a.name == "Id"@ {
            None
        } else if a.name == "Joints"@ {
            joints_error(a.value)
        } else {
            Some(ParseError::UnknownAttribute)
        },
    }
}

/// The complaint about the first attribute that there is one about, if any.
pub open spec fn first_error(attrs: Seq<AttributeView>, kind: TagKind) -> Option<ParseError>
    decreases attrs.len(),
{
    if attrs.len() == 0 {
        None
    } else {
        match first_error(attrs.drop_last(), kind) {
            Some(e) => Some(e),
            None => attribute_error(kind, attrs.last()),
        }
    }
}

/// The name of a tag and its attributes as text; the name is decoded first.
pub open spec fn decoded_tag(tag: TagBytes) -> Result<TagView, ParseError> {
    match decoded_name(tag.name) {
        Err(e) => Err(e),
        Ok((name, prefix)) => match decoded_attributes(tag.attributes) {
            Err(e) => Err(e),
            Ok(attributes) => Ok(TagView { name, prefix, attributes }),
        },
    }
}

/// The event at `idx`, which must exist.
pub open spec fn event_at(events: Seq<EventView>, idx: int) -> Result<EventView, ParseError> {
    if 0 <= idx < events.len() {
        Ok(events[idx])
    } else {
        Err(ParseError::EndOfStream)
    }
}

/// The event at `idx`, which must be a start tag, as text.
pub open spec fn start_tag_at(events: Seq<EventView>, idx: int) -> Result<TagView, ParseError> {
    match event_at(events, idx) {
        Err(e) => Err(e),
        Ok(EventView::StartTag(tag)) => decoded_tag(tag),
        Ok(_) => Err(ParseError::UnexpectedStructure),
    }
}

/// The event at `idx`, which must be an empty tag, as text.
pub open spec fn empty_tag_at(events: Seq<EventView>, idx: int) -> Result<TagView, ParseError> {
    match event_at(events, idx) {
        Err(e) => Err(e),
        Ok(EventView::EmptyTag(tag)) => decoded_tag(tag),
        Ok(_) => Err(ParseError::UnexpectedStructure),
    }
}

/// The event at `idx`, which must be an end tag without a prefix and with the name `name`.
pub open spec fn end_tag_at(events: Seq<EventView>, idx: int, name: Seq<char>) -> Result<(), ParseError> {
    match event_at(events, idx) {
        Err(e) => Err(e),
        Ok(EventView::EndTag(qname)) => match decoded_name(qname) {
            Err(e) => Err(e),
            Ok((n, prefix)) => if prefix is None && n == name {
                Ok(())
            } else {
                Err(ParseError::UnexpectedStructure)
            },
        },
        Ok(_) => Err(ParseError::UnexpectedStructure),
    }
}

/// Whether a tag has no prefix and the name `name`.
pub open spec fn plain_tag(tag: TagView, name: Seq<char>) -> bool {
    tag.prefix is None && tag.name == name
}

/// The width and height that the attribute `Bounds` gives, which must be there.
pub open spec fn required_bounds(attrs: Seq<AttributeView>) -> Result<(usize, usize), ParseError> {
    match last_value(attrs, "Bounds"@) {
        None => Err(ParseError::MissingRequiredField),
        Some(b) => bounds_of(b),
    }
}

/// The value of the attribute `name`, which must be there.
pub open spec fn required_value(attrs: Seq<AttributeView>, name: Seq<char>) -> Result<Seq<char>, ParseError> {
    match last_value(attrs, name) {
        None => Err(ParseError::MissingRequiredField),
        Some(v) => Ok(v),
    }
}

/// Whether a sequence terminal has the attributes that it must have besides `Bounds`:
/// `Id`, `Direction` and `DataType`.
pub open spec fn terminal_is_named(attrs: Seq<AttributeView>) -> bool {
    &&& last_value(attrs, "Id"@) is Some
    &&& last_value(attrs, "Direction"@) is Some
    &&& last_value(attrs, "DataType"@) is Some
}

/// The sequence terminal that the attributes of a `Terminal` tag describe. `Id`,
/// `Direction` and `DataType` are required and must have the fixed values wherever they
/// stand; `Bounds` is required and `Wire` is optional; `Hotspot` is passed over.
pub open spec fn sequence_terminal(attrs: Seq<AttributeView>, ty: SequenceBlockType) -> Result<
    SequenceView,
    ParseError,
> {
    match first_error(attrs, TagKind::Terminal(ty)) {
        Some(e) => Err(e),
        None => if !terminal_is_named(attrs) {
            Err(ParseError::MissingRequiredField)
        } else {
            match required_bounds(attrs) {
                Err(e) => Err(e),
                Ok(bounds) => Ok(SequenceView { ty, bounds, wire_id: last_value(attrs, "Wire"@) }),
            }
        },
    }
}

/// The sequence terminal that the event at `idx` describes: an empty tag `Terminal`
/// without a prefix.
pub open spec fn sequence_terminal_at(events: Seq<EventView>, idx: int, ty: SequenceBlockType) -> Result<
    SequenceView,
    ParseError,
> {
    match empty_tag_at(events, idx) {
        Err(e) => Err(e),
        Ok(tag) => if plain_tag(tag, "Terminal"@) {
            sequence_terminal(tag.attributes, ty)
        } else {
            Err(ParseError::UnexpectedStructure)
        },
    }
}

/// The two sequence terminals of a method call, which stand at `idx` and behind it:
/// first the input, then the output.
pub open spec fn sequence_blocks(events: Seq<EventView>, idx: int) -> Result<
    (SequenceView, SequenceView),
    ParseError,
> {
    match sequence_terminal_at(events, idx, SequenceBlockType::In) {
        Err(e) => Err(e),
        Ok(input) => match sequence_terminal_at(events, idx + 1, SequenceBlockType::Out) {
            Err(e) => Err(e),
            Ok(output) => Ok((input, output)),
        },
    }
}

/// The id and the geometry of a block, out of the attributes of its tag.
pub open spec fn block_header(attrs: Seq<AttributeView>, kind: TagKind) -> Result<
    (Seq<char>, (usize, usize)),
    ParseError,
> {
    match first_error(attrs, kind) {
        Some(e) => Err(e),
        None => match (last_value(attrs, "Id"@), last_value(attrs, "Bounds"@)) {
            (Some(id), Some(b)) => match bounds_of(b) {
                Err(e) => Err(e),
                Ok(bounds) => Ok((id, bounds)),
            },
            _ => Err(ParseError::MissingRequiredField),
        },
    }
}

/// Whether the event at `idx` is an empty tag; its content is not looked at.
pub open spec fn any_empty_tag_at(events: Seq<EventView>, idx: int) -> Result<(), ParseError> {
    match event_at(events, idx) {
        Err(e) => Err(e),
        Ok(EventView::EmptyTag(_)) => Ok(()),
        Ok(_) => Err(ParseError::UnexpectedStructure),
    }
}

/// The events inside a start block, which take the five places from `idx` on: the
/// opening of a `ConfigurableMethodTerminal` without attributes, an empty tag, its
/// closing, the output terminal, and the closing of the block.
pub open spec fn start_block_body(events: Seq<EventView>, idx: int) -> Result<SequenceView, ParseError> {
    match start_tag_at(events, idx) {
        Err(e) => Err(e),
        Ok(tag) => if !(tag.attributes.len() == 0 && plain_tag(tag, "ConfigurableMethodTerminal"@)) {
            Err(ParseError::UnexpectedStructure)
        } else {
            match any_empty_tag_at(events, idx + 1) {
                Err(e) => Err(e),
                Ok(()) => match end_tag_at(events, idx + 2, "ConfigurableMethodTerminal"@) {
                    Err(e) => Err(e),
                    Ok(()) => match sequence_terminal_at(events, idx + 3, SequenceBlockType::Out) {
                        Err(e) => Err(e),
                        Ok(output) => match end_tag_at(events, idx + 4, "StartBlock"@) {
                            Err(e) => Err(e),
                            Ok(()) => Ok(output),
                        },
                    },
                },
            }
        },
    }
}

/// The start block that a `StartBlock` tag with the attributes `attrs` opens, where the
/// events behind the tag begin at `idx`: its id, the block, and the place behind it.
#[verifier::opaque]
pub open spec fn start_block(attrs: Seq<AttributeView>, events: Seq<EventView>, idx: int) -> Result<
    (Seq<char>, BlockView, int),
    ParseError,
> {
    match block_header(attrs, TagKind::StartBlock) {
        Err(e) => Err(e),
        Ok((id, bounds)) => match start_block_body(events, idx) {
            Err(e) => Err(e),
            Ok(output) => Ok(
                (
                    id,
                    BlockView { ty: BlockType::Start, bounds, sequence_in: None, sequence_out: Some(output) },
                    idx + 5,
                ),
            ),
        },
    }
}

/// One argument of a method call: the id of its terminal and the value configured.
pub struct ArgumentView {
    pub id: Seq<char>,
    pub value: Seq<char>,
}

/// The name of the argument that is passed over.
pub open spec fn interrupts_argument() -> Seq<char> {
    "InterruptsToListenFor_16B03592_CD76_4D58_8DC3_E3C3091E327A"@
}

/// The argument that stands at `idx`, if a start tag stands there; the list of arguments
/// ends at the first other event. An argument takes three places: the opening of a
/// `ConfigurableMethodTerminal` whose one attribute is `ConfiguredValue`, an empty
/// `Terminal` with an `Id`, and the closing of the `ConfigurableMethodTerminal`.
pub open spec fn block_attribute(events: Seq<EventView>, idx: int) -> Result<Option<ArgumentView>, ParseError> {
    match event_at(events, idx) {
        Err(e) => Err(e),
        Ok(EventView::StartTag(raw)) => match decoded_tag(raw) {
            Err(e) => Err(e),
            Ok(tag) => if !(plain_tag(tag, "ConfigurableMethodTerminal"@) && tag.attributes.len() == 1
                && tag.attributes[0].name == "ConfiguredValue"@) {
                Err(ParseError::UnexpectedStructure)
            } else {
                match empty_tag_at(events, idx + 1) {
                    Err(e) => Err(e),
                    Ok(terminal) => if !plain_tag(terminal, "Terminal"@) {
                        Err(ParseError::UnexpectedStructure)
                    } else {
                        match first_error(terminal.attributes, TagKind::Argument) {
                            Some(e) => Err(e),
                            None => match required_value(terminal.attributes, "Id"@) {
                                Err(e) => Err(e),
                                Ok(id) => match end_tag_at(events, idx + 2, "ConfigurableMethodTerminal"@) {
                                    Err(e) => Err(e),
                                    Ok(()) => Ok(Some(ArgumentView { id, value: tag.attributes[0].value })),
                                },
                            },
                        }
                    },
                }
            },
        },
        Ok(_) => Ok(None),
    }
}

/// What the arguments of a motor move have given so far.
#[derive(Clone, Copy, Debug)]
pub struct MotorSettings {
    pub ports: Option<(char, char)>,
    pub steering: Option<isize>,
    pub speed: Option<usize>,
}

/// The settings after one more argument. `Ports` holds the two port letters at its
/// third and sixth character; `Steering` is a signed and `Speed` an unsigned number.
pub open spec fn with_argument(settings: MotorSettings, arg: ArgumentView) -> Result<MotorSettings, ParseError> {
    if arg.id == "Ports"@ {
        if arg.value.len() >= 6 {
            Ok(MotorSettings { ports: Some((arg.value[2], arg.value[5])), ..settings })
        } else {
            Err(ParseError::MissingRequiredField)
        }
    } else if arg.id == "Steering"@ {
        match isize_of(arg.value) {
            Some(steering) => Ok(MotorSettings { steering: Some(steering), ..settings }),
            None => Err(ParseError::UnexpectedStructure),
        }
    } else if arg.id == "Speed"@ {
        match usize_of(arg.value) {
            Some(speed) => Ok(MotorSettings { speed: Some(speed), ..settings }),
            None => Err(ParseError::UnexpectedStructure),
        }
    } else if arg.id == interrupts_argument() {
        Ok(settings)
    } else {
        Err(ParseError::UnknownAttribute)
    }
}

/// The settings after all the arguments that stand from `idx` on, and the place of the
/// first event behind them.
pub open spec fn motor_arguments(events: Seq<EventView>, idx: int, settings: MotorSettings) -> Result<
    (MotorSettings, int),
    ParseError,
>
    decreases events.len() - idx,
{
    match block_attribute(events, idx) {
        Err(e) => Err(e),
        Ok(None) => Ok((settings, idx)),
        Ok(Some(arg)) => match with_argument(settings, arg) {
            Err(e) => Err(e),
            Ok(settings) => if 0 <= idx < events.len() {
                motor_arguments(events, idx + 3, settings)
            } else {
                Err(ParseError::EndOfStream)
            },
        },
    }
}

/// The motor move whose arguments begin at `idx`: the block, and the place behind its
/// two sequence terminals.
pub open spec fn motor_move(bounds: (usize, usize), events: Seq<EventView>, idx: int) -> Result<
    (BlockView, int),
    ParseError,
> {
    match motor_arguments(events, idx, MotorSettings { ports: None, steering: None, speed: None }) {
        Err(e) => Err(e),
        Ok((settings, next)) => match (settings.ports, settings.steering, settings.speed) {
            (Some(ports), Some(steering), Some(speed)) => match sequence_blocks(events, next) {
                Err(e) => Err(e),
                Ok((input, output)) => Ok(
                    (
                        BlockView {
                            ty: BlockType::MotorMove { ports, steering, speed },
                            bounds,
                            sequence_in: Some(input),
                            sequence_out: Some(output),
                        },
                        next + 2,
                    ),
                ),
            },
            _ => Err(ParseError::MissingRequiredField),
        },
    }
}

/// The block that a `ConfigurableMethodCall` tag with the attributes `attrs` opens,
/// where the events behind the tag begin at `idx`: its id, the block, and the place
/// behind the closing tag of the call. The only target known is the motor move.
#[verifier::opaque]
pub open spec fn method_call(attrs: Seq<AttributeView>, events: Seq<EventView>, idx: int) -> Result<
    (Seq<char>, BlockView, int),
    ParseError,
> {
    match block_header(attrs, TagKind::MethodCall) {
        Err(e) => Err(e),
        Ok((id, bounds)) => match required_value(attrs, "Target"@) {
            Err(e) => Err(e),
            Ok(target) => if target != "MoveUnlimited.vix"@ {
                Err(ParseError::UnknownMethodTarget)
            } else {
                match motor_move(bounds, events, idx) {
                    Err(e) => Err(e),
                    Ok((block, next)) => match end_tag_at(events, next, "ConfigurableMethodCall"@) {
                        Err(e) => Err(e),
                        Ok(()) => Ok((id, block, next + 1)),
                    },
                }
            },
        },
    }
}

/// The wire that a `Wire` tag with the attributes `attrs` describes, with its id.
pub open spec fn wire_of(attrs: Seq<AttributeView>) -> Result<(Seq<char>, WireView), ParseError> {
    match first_error(attrs, TagKind::Wire) {
        Some(e) => Err(e),
        None => match (last_value(attrs, "Joints"@), last_value(attrs, "Id"@)) {
            (Some(joints), Some(id)) => match joints_of(joints) {
                Err(e) => Err(e),
                Ok((input, output)) => Ok((id, WireView { input, output })),
            },
            _ => Err(ParseError::MissingRequiredField),
        },
    }
}

/// The version that a `SourceFile` tag with the attributes `attrs` gives.
pub open spec fn version_of(attrs: Seq<AttributeView>) -> Result<VersionView, ParseError> {
    match first_error(attrs, TagKind::SourceFile) {
        Some(e) => Err(e),
        None => match (last_value(attrs, "Version"@), last_value(attrs, "xmlns"@)) {
            (Some(number), Some(namespace)) => Ok(VersionView { number, namespace }),
            _ => Err(ParseError::MissingRequiredField),
        },
    }
}

/// Whether `name` is a start tag that the document builder knows.
pub open spec fn known_start_tag(name: Seq<char>) -> bool {
    ||| name == "SourceFile"@
    ||| name == "Namespace"@
    ||| name == "VirtualInstrument"@
    ||| name == "FrontPanel"@
    ||| name == "BlockDiagram"@
    ||| name == "StartBlock"@
    ||| name == "ConfigurableMethodCall"@
    ||| name == "Icon"@
    ||| name == "IconPanel"@
    ||| name == "AnimationProperties.Animations"@
    ||| name == "EventProperties.Events"@
}

/// Whether `name` is an end tag that the document builder lets pass.
pub open spec fn known_end_tag(name: Seq<char>) -> bool {
    ||| name == "FrontPanel"@
    ||| name == "BlockDiagram"@
    ||| name == "AnimationProperties.Animations"@
    ||| name == "EventProperties.Events"@
    ||| name == "IconPanel"@
    ||| name == "Icon"@
    ||| name == "VirtualInstrument"@
    ||| name == "Namespace"@
    ||| name == "SourceFile"@
}

/// Whether `name` is an empty tag that the document builder lets pass.
pub open spec fn passed_empty_tag(name: Seq<char>) -> bool {
    ||| name == "FrontPanelCanvas"@
    ||| name == "AnimationsContainer"@
    ||| name == "EventContainer"@
}

/// What a start tag at the top level does: what is gathered after it, and the place
/// of the next event at the top level. `idx` is the place behind the tag.
pub open spec fn start_tag(g: Gathered, tag: TagView, events: Seq<EventView>, idx: int) -> Result<
    (Gathered, int),
    ParseError,
> {
    if tag.name == "SourceFile"@ {
        if tag.prefix is Some {
            Err(ParseError::UnexpectedStructure)
        } else {
            match version_of(tag.attributes) {
                Err(e) => Err(e),
                Ok(version) => if g.version is Some {
                    Err(ParseError::DuplicateVersion)
                } else {
                    Ok((Gathered { version: Some(version), ..g }, idx))
                },
            }
        }
    } else if tag.name == "Namespace"@ {
        if tag.prefix is Some {
            Err(ParseError::UnexpectedStructure)
        } else {
            match first_error(tag.attributes, TagKind::Namespace) {
                Some(e) => Err(e),
                None => Ok((g, idx)),
            }
        }
    } else if tag.name == "VirtualInstrument"@ || tag.name == "FrontPanel"@ {
        Ok((g, idx))
    } else if tag.name == "BlockDiagram"@ {
        match first_error(tag.attributes, TagKind::BlockDiagram) {
            Some(e) => Err(e),
            None => Ok((g, idx)),
        }
    } else if tag.name == "StartBlock"@ {
        if tag.prefix is Some {
            Err(ParseError::UnexpectedStructure)
        } else {
            match start_block(tag.attributes, events, idx) {
                Err(e) => Err(e),
                Ok((id, block, next)) => Ok((Gathered { blocks: g.blocks.insert(id, block), ..g }, next)),
            }
        }
    } else if tag.name == "ConfigurableMethodCall"@ {
        if tag.prefix is Some {
            Err(ParseError::UnexpectedStructure)
        } else {
            match method_call(tag.attributes, events, idx) {
                Err(e) => Err(e),
                Ok((id, block, next)) => Ok((Gathered { blocks: g.blocks.insert(id, block), ..g }, next)),
            }
        }
    } else if tag.name == "Icon"@ || tag.name == "IconPanel"@ || tag.name
        == "AnimationProperties.Animations"@ || tag.name == "EventProperties.Events"@ {
        Ok((g, idx))
    } else {
        Err(ParseError::UnknownTag)
    }
}

/// What an empty tag at the top level does. A wire is entered under its id, which
/// must be new.
pub open spec fn empty_tag(g: Gathered, tag: TagView) -> Result<Gathered, ParseError> {
    if passed_empty_tag(tag.name) {
        Ok(g)
    } else if tag.name == "Wire"@ {
        match wire_of(tag.attributes) {
            Err(e) => Err(e),
            Ok((id, wire)) => if g.wires.contains_key(id) {
                Err(ParseError::DuplicateWireId)
            } else {
                Ok(Gathered { wires: g.wires.insert(id, wire), ..g })
            },
        }
    } else {
        Err(ParseError::UnknownTag)
    }
}

/// Where the builder stands after one event at the top level.
pub struct Step {
    pub gathered: Gathered,
    pub next: int,
    /// Whether the event was the end of the file.
    pub done: bool,
}

/// What the event at `idx` does at the top level.
#[verifier::opaque]
pub open spec fn step(g: Gathered, events: Seq<EventView>, idx: int) -> Result<Step, ParseError> {
    match event_at(events, idx) {
        Err(e) => Err(e),
        Ok(EventView::StartTag(raw)) => match decoded_tag(raw) {
            Err(e) => Err(e),
            Ok(tag) => match start_tag(g, tag, events, idx + 1) {
                Err(e) => Err(e),
                Ok((gathered, next)) => Ok(Step { gathered, next, done: false }),
            },
        },
        Ok(EventView::EndTag(name)) => match decoded_name(name) {
            Err(e) => Err(e),
            Ok((name, _)) => if known_end_tag(name) {
                Ok(Step { gathered: g, next: idx + 1, done: false })
            } else {
                Err(ParseError::UnknownTag)
            },
        },
        Ok(EventView::EmptyTag(raw)) => match decoded_tag(raw) {
            Err(e) => Err(e),
            Ok(tag) => match empty_tag(g, tag) {
                Err(e) => Err(e),
                Ok(gathered) => Ok(Step { gathered, next: idx + 1, done: false }),
            },
        },
        Ok(EventView::Text(_)) => Err(ParseError::UnexpectedText),
        Ok(EventView::Comment) => Ok(Step { gathered: g, next: idx + 1, done: false }),
        Ok(EventView::Declaration(content)) => if g.decl is Some {
            Err(ParseError::DuplicateDeclaration)
        } else {
            Ok(Step { gathered: Gathered { decl: Some(content), ..g }, next: idx + 1, done: false })
        },
        Ok(EventView::CData) | Ok(EventView::ProcessingInstruction) | Ok(EventView::DocType) => Err(
            ParseError::UnexpectedStructure,
        ),
        Ok(EventView::EndOfStream) => Ok(Step { gathered: g, next: idx + 1, done: true }),
    }
}

/// What is gathered when the events from `idx` on are taken in their order up to the
/// end of the file, and the place behind the end. Running out of events before the
/// end of the file is an error, as is the first event that is one.
pub open spec fn run(g: Gathered, events: Seq<EventView>, idx: int) -> Result<(Gathered, int), ParseError>
    decreases events.len() - idx,
{
    match step(g, events, idx) {
        Err(e) => Err(e),
        Ok(s) => if s.done {
            Ok((s.gathered, s.next))
        } else if 0 <= idx < s.next <= events.len() {
            run(s.gathered, events, s.next)
        } else {
            Err(ParseError::EndOfStream)
        },
    }
}

/// What has been gathered when the events from `idx` on have been taken up to the end
/// of the file, or up to the first event that is an error: an event that is an error
/// adds nothing.
pub open spec fn gathered_at_end(g: Gathered, events: Seq<EventView>, idx: int) -> Gathered
    decreases events.len() - idx,
{
    match step(g, events, idx) {
        Err(_) => g,
        Ok(s) => if s.done {
            s.gathered
        } else if 0 <= idx < s.next <= events.len() {
            gathered_at_end(s.gathered, events, s.next)
        } else {
            g
        },
    }
}

/// Nothing gathered yet.
pub open spec fn nothing() -> Gathered {
    Gathered { decl: None, version: None, blocks: Map::empty(), wires: Map::empty() }
}

/// A finished document.
pub struct DocumentView {
    pub name: Seq<char>,
    pub version: VersionView,
    pub decl: Seq<u8>,
    pub blocks: Map<Seq<char>, BlockView>,
    pub wires: Map<Seq<char>, WireView>,
}

/// The document that what was gathered makes up; version and declaration must be there.
pub open spec fn finished(name: Seq<char>, g: Gathered) -> Result<DocumentView, ParseError> {
    match (g.version, g.decl) {
        (Some(version), Some(decl)) => Ok(
            DocumentView { name, version, decl, blocks: g.blocks, wires: g.wires },
        ),
        _ => Err(ParseError::MissingRequiredField),
    }
}

/// The document named `name` that the events of one file describe.
pub open spec fn document_of(name: Seq<char>, events: Seq<EventView>) -> Result<DocumentView, ParseError> {
    match run(nothing(), events, 0) {
        Err(e) => Err(e),
        Ok((g, _)) => finished(name, g),
    }
}

/// A complaint about the attributes up to a place is the complaint about all of them.
pub proof fn lemma_first_error_stays(attrs: Seq<AttributeView>, kind: TagKind, k: int)
    requires
        0 <= k <= attrs.len(),
        first_error(attrs.take(k), kind) is Some,
    ensures
        first_error(attrs, kind) == first_error(attrs.take(k), kind),
    decreases attrs.len(),
{
    if k == attrs.len() {
        assert(attrs.take(k) =~= attrs);
    } else {
        assert(attrs.drop_last().take(k) =~= attrs.take(k));
        lemma_first_error_stays(attrs.drop_last(), kind, k);
    }
}

/// The document that a builder hands out: the name must be there, and what was
/// gathered must make up a document.
pub open spec fn built(name: Option<Seq<char>>, g: Gathered) -> Result<DocumentView, ParseError> {
    match name {
        None => Err(ParseError::MissingRequiredField),
        Some(name) => finished(name, g),
    }
}

/// Every event at the top level is within the events and leaves the cursor further on.
pub proof fn lemma_step_advances(g: Gathered, events: Seq<EventView>, idx: int)
    ensures
        step(g, events, idx) is Ok ==> 0 <= idx < step(g, events, idx)->Ok_0.next <= events.len(),
{
    reveal(step);
    reveal(start_block);
    reveal(method_call);
    if step(g, events, idx) is Ok {
        match events[idx] {
            EventView::StartTag(raw) => {
                let tag = decoded_tag(raw)->Ok_0;
                if tag.name == "ConfigurableMethodCall"@ {
                    lemma_method_call_is_tried();
                    lemma_motor_arguments_advance(
                        events,
                        idx + 1,
                        MotorSettings { ports: None, steering: None, speed: None },
                    );
                }
            },
            _ => {},
        }
    }
}

/// `ConfigurableMethodCall` is none of the start tags that are tried before it.
pub proof fn lemma_method_call_is_tried()
    ensures
        "ConfigurableMethodCall"@ != "SourceFile"@,
        "ConfigurableMethodCall"@ != "Namespace"@,
        "ConfigurableMethodCall"@ != "VirtualInstrument"@,
        "ConfigurableMethodCall"@ != "FrontPanel"@,
        "ConfigurableMethodCall"@ != "BlockDiagram"@,
        "ConfigurableMethodCall"@ != "StartBlock"@,
{
    reveal_strlit("ConfigurableMethodCall");
    reveal_strlit("SourceFile");
    reveal_strlit("Namespace");
    reveal_strlit("VirtualInstrument");
    reveal_strlit("FrontPanel");
    reveal_strlit("BlockDiagram");
    reveal_strlit("StartBlock");
    assert("ConfigurableMethodCall"@.len() == 22);
    assert("SourceFile"@.len() == 10);
    assert("Namespace"@.len() == 9);
    assert("VirtualInstrument"@.len() == 17);
    assert("FrontPanel"@.len() == 10);
    assert("BlockDiagram"@.len() == 12);
    assert("StartBlock"@.len() == 10);
}

/// The arguments of a method call end at the place where they begin or further on.
pub proof fn lemma_motor_arguments_advance(events: Seq<EventView>, idx: int, settings: MotorSettings)
    requires
        motor_arguments(events, idx, settings) is Ok,
        0 <= idx <= events.len(),
    ensures
        idx <= motor_arguments(events, idx, settings)->Ok_0.1 <= events.len(),
    decreases events.len() - idx,
{
    match block_attribute(events, idx) {
        Ok(Some(arg)) => {
            lemma_motor_arguments_advance(events, idx + 3, with_argument(settings, arg)->Ok_0);
        },
        _ => {},
    }
}

} // verus!
