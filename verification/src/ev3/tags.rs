//! What the attributes of a tag say: which of them a tag admits, and the values
//! that are read out of them.
use crate::error::ParseError;
use crate::ev3::grammar::{
    attribute_error, block_header, decoded_tag, first_error, last_value, lemma_first_error_stays,
    required_bounds, required_value, sequence_terminal, version_of, wire_of, with_argument,
    MotorSettings, SequenceBlockType, TagKind, TagView,
};
use crate::ev3::parser::{
    parse_bounds, parse_joints, text_view, BlockAttribute, SequenceBlock, Wire,
};
use crate::ev3::project::Version;
use crate::number::{parse_isize, parse_usize};
use crate::text::{chars_of, str_eq};
use crate::utils::xml::{
    attribute_views, extract_name_from_qname, parse_attributes, AttributeView, ParsedAttribute,
    XmlTag,
};
use vstd::prelude::*;
use vstd::string::*;

verus! {

/// A tag as text.
#[derive(Debug, PartialEq, Eq)]
pub struct Tag {
    pub name: String,
    pub prefix: Option<String>,
    pub attributes: Vec<ParsedAttribute>,
}

impl View for Tag {
    type V = TagView;

    open spec fn view(&self) -> TagView {
        TagView {
            name: self.name@,
            prefix: text_view(self.prefix),
            attributes: attribute_views(self.attributes@),
        }
    }
}

/// Decodes the name and the attributes of a tag, the name first.
pub fn decode_tag(tag: &XmlTag) -> (r: Result<Tag, ParseError>)
    ensures
        match (r, decoded_tag(tag@)) {
            (Ok(tag), Ok(t)) => tag@ == t,
            (Err(e), Err(d)) => e == d,
            _ => false,
        },
{
    let (name, prefix) = extract_name_from_qname(tag.name.as_slice())?;
    let attributes = parse_attributes(tag)?;
    Ok(Tag { name, prefix, attributes })
}

/// Holds one attribute against what a tag of the given kind admits.
pub fn check_attribute(kind: TagKind, a: &ParsedAttribute) -> (r: Option<ParseError>)
    ensures
        r == attribute_error(kind, a@),
{
    let name = a.key.0.as_str();
    let value = a.value.as_str();
    match kind {
        TagKind::SourceFile => if str_eq(name, "Version") || str_eq(name, "xmlns") {
            None
        } else {
            Some(ParseError::UnknownAttribute)
        },
        TagKind::Namespace => if str_eq(name, "Name") && !str_eq(value, "Project") {
            Some(ParseError::UnexpectedStructure)
        } else {
            None
        },
        TagKind::BlockDiagram => if !str_eq(name, "Name") {
            Some(ParseError::UnknownAttribute)
        } else if !str_eq(value, "__RootDiagram__") {
            Some(ParseError::UnexpectedStructure)
        } else {
            None
        },
        TagKind::StartBlock | TagKind::MethodCall => if str_eq(name, "Id") || str_eq(name, "Target") {
            None
        } else if str_eq(name, "Bounds") {
            match parse_bounds(a.value.clone()) {
                Ok(_) => None,
                Err(e) => Some(e),
            }
        } else {
            Some(ParseError::UnknownAttribute)
        },
        TagKind::Argument => if str_eq(name, "Id") || str_eq(name, "Direction") || str_eq(name, "DataType")
            || str_eq(name, "Hotspot") || str_eq(name, "Bounds") {
            None
        } else {
            Some(ParseError::UnknownAttribute)
        },
        TagKind::Terminal(ty) => {
            let (id, direction) = match ty {
                SequenceBlockType::In => ("SequenceIn", "Input"),
                SequenceBlockType::Out => ("SequenceOut", "Output"),
            };
            let fixed = if str_eq(name, "Id") {
                Some(id)
            } else if str_eq(name, "Direction") {
                Some(direction)
            } else if str_eq(name, "DataType") {
                Some("NationalInstruments:SourceModel:DataTypes:X3SequenceWireDataType")
            } else {
                None
            };
            match fixed {
                Some(expected) => if str_eq(value, expected) {
                    None
                } else {
                    Some(ParseError::UnexpectedStructure)
                },
                None => if str_eq(name, "Wire") || str_eq(name, "Hotspot") {
                    None
                } else if str_eq(name, "Bounds") {
                    match parse_bounds(a.value.clone()) {
                        Ok(_) => None,
                        Err(e) => Some(e),
                    }
                } else {
                    Some(ParseError::UnknownAttribute)
                },
            }
        },
        TagKind::Wire => if str_eq(name, "Id") {
            None
        } else if str_eq(name, "Joints") {
            match parse_joints(a.value.clone()) {
                Ok(_) => None,
                Err(e) => Some(e),
            }
        } else {
            Some(ParseError::UnknownAttribute)
        },
    }
}

/// Holds the attributes of a tag against what a tag of its kind admits; the first
/// attribute that does not pass decides the error.
pub fn check_attributes(attrs: &Vec<ParsedAttribute>, kind: TagKind) -> (r: Result<(), ParseError>)
    ensures
        r == match first_error(attribute_views(attrs@), kind) {
            Some(e) => Err::<(), ParseError>(e),
            None => Ok(()),
        },
{
    let ghost views = attribute_views(attrs@);
    let mut i: usize = 0;
    while i < attrs.len()
        invariant
            i <= attrs@.len(),
            views == attribute_views(attrs@),
            first_error(views.take(i as int), kind) is None,
        decreases attrs.len() - i,
    {
        assert(views.take(i + 1).drop_last() =~= views.take(i as int));
        assert(views.take(i + 1).last() == attrs@[i as int]@);
        match check_attribute(kind, &attrs[i]) {
            Some(e) => {
                proof {
                    lemma_first_error_stays(views, kind, i + 1);
                }
                return Err(e);
            },
            None => {},
        }
        i += 1;
    }
    assert(views.take(i as int) =~= views);
    Ok(())
}

/// The value of the last attribute named `name`, if there is one.
pub fn value_of<'a>(attrs: &'a Vec<ParsedAttribute>, name: &str) -> (r: Option<&'a String>)
    ensures
        match r {
            Some(v) => last_value(attribute_views(attrs@), name@) == Some(v@),
            None => last_value(attribute_views(attrs@), name@) is None,
        },
{
    let ghost views = attribute_views(attrs@);
    let mut i: usize = attrs.len();
    assert(views.take(i as int) =~= views);
    while i > 0
        invariant
            i <= attrs@.len(),
            views == attribute_views(attrs@),
            last_value(views, name@) == last_value(views.take(i as int), name@),
        decreases i,
    {
        i -= 1;
        assert(views.take(i + 1).drop_last() =~= views.take(i as int));
        assert(views.take(i + 1).last() == attrs@[i as int]@);
        if str_eq(attrs[i].key.0.as_str(), name) {
            return Some(&attrs[i].value);
        }
    }
    assert(views.take(0) =~= Seq::<AttributeView>::empty());
    None
}

/// Enters one argument of a motor move into the settings.
pub fn apply_argument(settings: MotorSettings, arg: &BlockAttribute) -> (r: Result<MotorSettings, ParseError>)
    ensures
        r == with_argument(settings, arg@),
{
    let id = arg.id.as_str();
    if str_eq(id, "Ports") {
        let chars = chars_of(arg.value.as_str());
        if chars.len() >= 6 {
            Ok(MotorSettings { ports: Some((chars[2], chars[5])), ..settings })
        } else {
            Err(ParseError::MissingRequiredField)
        }
    } else if str_eq(id, "Steering") {
        let chars = chars_of(arg.value.as_str());
        match parse_isize(chars.as_slice()) {
            Some(steering) => Ok(MotorSettings { steering: Some(steering), ..settings }),
            None => Err(ParseError::UnexpectedStructure),
        }
    } else if str_eq(id, "Speed") {
        let chars = chars_of(arg.value.as_str());
        match parse_usize(chars.as_slice()) {
            Some(speed) => Ok(MotorSettings { speed: Some(speed), ..settings }),
            None => Err(ParseError::UnexpectedStructure),
        }
    } else if str_eq(id, "InterruptsToListenFor_16B03592_CD76_4D58_8DC3_E3C3091E327A") {
        Ok(settings)
    } else {
        Err(ParseError::UnknownAttribute)
    }
}

/// Reads a wire out of the attributes of its tag: the id of the wire and the wire.
pub fn parse_wire_tag(attributes: Vec<ParsedAttribute>) -> (r: Result<(String, Wire), ParseError>)
    ensures
        match (r, wire_of(attribute_views(attributes@))) {
            (Ok((id, wire)), Ok((i, w))) => id@ == i && wire@ == w,
            (Err(e), Err(d)) => e == d,
            _ => false,
        },
{
    check_attributes(&attributes, TagKind::Wire)?;
    match (value_of(&attributes, "Joints"), value_of(&attributes, "Id")) {
        (Some(joints), Some(id)) => {
            let (input, output) = parse_joints(joints.clone())?;
            Ok((id.clone(), Wire { input, output }))
        },
        _ => Err(ParseError::MissingRequiredField),
    }
}

/// Reads the version out of the attributes of a `SourceFile` tag.
pub fn parse_version(attributes: &Vec<ParsedAttribute>) -> (r: Result<Version, ParseError>)
    ensures
        match (r, version_of(attribute_views(attributes@))) {
            (Ok(version), Ok(v)) => version@ == v,
            (Err(e), Err(d)) => e == d,
            _ => false,
        },
{
    check_attributes(attributes, TagKind::SourceFile)?;
    match (value_of(attributes, "Version"), value_of(attributes, "xmlns")) {
        (Some(number), Some(namespace)) => Ok(
            Version { number: number.clone(), namespace: namespace.clone() },
        ),
        _ => Err(ParseError::MissingRequiredField),
    }
}

/// The geometry that the attribute `Bounds` gives, which must be there.
pub fn bounds_from(attrs: &Vec<ParsedAttribute>) -> (r: Result<(usize, usize), ParseError>)
    ensures
        r == required_bounds(attribute_views(attrs@)),
{
    match value_of(attrs, "Bounds") {
        None => Err(ParseError::MissingRequiredField),
        Some(b) => parse_bounds(b.clone()),
    }
}

/// The value of the attribute `name`, which must be there.
pub fn required_from(attrs: &Vec<ParsedAttribute>, name: &str) -> (r: Result<String, ParseError>)
    ensures
        match (r, required_value(attribute_views(attrs@), name@)) {
            (Ok(v), Ok(d)) => v@ == d,
            (Err(e), Err(d)) => e == d,
            _ => false,
        },
{
    match value_of(attrs, name) {
        None => Err(ParseError::MissingRequiredField),
        Some(v) => Ok(v.clone()),
    }
}

/// Reads a sequence terminal out of the attributes of its tag.
pub fn parse_terminal(attrs: &Vec<ParsedAttribute>, ty: SequenceBlockType) -> (r: Result<
    SequenceBlock,
    ParseError,
>)
    ensures
        match (r, sequence_terminal(attribute_views(attrs@), ty)) {
            (Ok(terminal), Ok(t)) => terminal@ == t,
            (Err(e), Err(d)) => e == d,
            _ => false,
        },
{
    check_attributes(attrs, TagKind::Terminal(ty))?;
    if value_of(attrs, "Id").is_none() || value_of(attrs, "Direction").is_none() || value_of(
        attrs,
        "DataType",
    ).is_none() {
        return Err(ParseError::MissingRequiredField);
    }
    let bounds = bounds_from(attrs)?;
    let wire_id = match value_of(attrs, "Wire") {
        Some(id) => Some(id.clone()),
        None => None,
    };
    Ok(SequenceBlock { ty, bounds, wire_id })
}

/// Reads the id and the geometry of a block out of the attributes of its tag.
pub fn parse_block_header(attrs: &Vec<ParsedAttribute>, kind: TagKind) -> (r: Result<
    (String, (usize, usize)),
    ParseError,
>)
    ensures
        match (r, block_header(attribute_views(attrs@), kind)) {
            (Ok((id, bounds)), Ok((i, b))) => id@ == i && bounds == b,
            (Err(e), Err(d)) => e == d,
            _ => false,
        },
{
    check_attributes(attrs, kind)?;
    match (value_of(attrs, "Id"), value_of(attrs, "Bounds")) {
        (Some(id), Some(b)) => {
            let bounds = parse_bounds(b.clone())?;
            Ok((id.clone(), bounds))
        },
        _ => Err(ParseError::MissingRequiredField),
    }
}

} // verus!
