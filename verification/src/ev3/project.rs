//! Documents and the project that holds them.
use crate::error::ParseError;
use crate::ev3::grammar::{document_of, DocumentView, VersionView};
use crate::ev3::parser::{block_views, bytes_view, text_view, wire_views, Block, FileBuilder, Wire};
use crate::idmap::IdMap;
use crate::number::{digits_value, parse_digits};
use crate::text::{decode_text, str_eq, text_of};
use crate::utils::VecReadWrapper;
use crate::utils::xml::{event_views, file_events, open_reader, XmlEvent};
use vstd::prelude::*;
use vstd::string::*;

verus! {

/// The version of the format in which a file is written, and its namespace.
#[derive(Clone, Debug, Default, PartialEq, Eq)]
pub struct Version {
    pub number: String,
    pub namespace: String,
}

impl View for Version {
    type V = VersionView;

    open spec fn view(&self) -> VersionView {
        VersionView { number: self.number@, namespace: self.namespace@ }
    }
}

/// The document of one program file: its blocks and its wires, each under its id.
#[derive(Debug)]
pub struct File {
    /// What stands in the XML declaration of the file.
    pub decl: Vec<u8>,
    pub version: Version,
    pub name: String,
    pub blocks: IdMap<Block>,
    pub wires: IdMap<Wire>,
}

impl View for File {
    type V = DocumentView;

    open spec fn view(&self) -> DocumentView {
        DocumentView {
            name: self.name@,
            version: self.version@,
            decl: self.decl@,
            blocks: block_views(self.blocks@),
            wires: wire_views(self.wires@),
        }
    }
}

/// What a result of building a document holds.
pub open spec fn outcome_view(r: Result<File, ParseError>) -> Result<DocumentView, ParseError> {
    match r {
        Ok(file) => Ok(file@),
        Err(e) => Err(e),
    }
}

/// The document named `name` that a file with the bytes `contents` holds: `InvalidXml`
/// where the bytes are not the events of a well-formed file, and else what the events
/// describe.
pub open spec fn file_document(name: Seq<char>, contents: Seq<u8>) -> Result<DocumentView, ParseError> {
    match file_events(contents) {
        None => Err(ParseError::InvalidXml),
        Some(events) => document_of(name, events),
    }
}

impl File {
    /// Builds the document named `name` out of the bytes of its file. The bytes are cut
    /// into events first, with white space between tags dropped.
    pub fn new(name: &str, contents: Vec<u8>) -> (r: Result<File, ParseError>)
        ensures
            outcome_view(r) == file_document(name@, contents@),
    {
        let wrapper = VecReadWrapper::new(contents);
        assert(wrapper.remaining() =~= contents@);
        let xml = open_reader(wrapper, true);
        let builder = FileBuilder::from_xml(xml)?;
        Self::build_from(name, builder)
    }

    /// Builds the document named `name` out of the events of its file.
    pub fn from_events(name: &str, events: Vec<XmlEvent>) -> (r: Result<File, ParseError>)
        ensures
            match (r, document_of(name@, event_views(events@))) {
                (Ok(file), Ok(d)) => file@ == d,
                (Err(e), Err(d)) => e == d,
                _ => false,
            },
    {
        Self::build_from(name, FileBuilder::from_events(events))
    }

    /// Names a fresh builder, lets it take all its events, and has it hand out the document.
    fn build_from(name: &str, builder: FileBuilder) -> (r: Result<File, ParseError>)
        requires
            builder.position() == 0,
            builder.document_name() is None,
            builder.gathered() == crate::ev3::grammar::nothing(),
        ensures
            match (r, document_of(name@, builder.events())) {
                (Ok(file), Ok(d)) => file@ == d,
                (Err(e), Err(d)) => e == d,
                _ => false,
            },
    {
        let mut builder = builder;
        match builder.name(name.to_owned()) {
            Ok(()) => {},
            Err(e) => {
                return Err(e);
            },
        }
        builder.parse()?;
        builder.build()
    }
}

/// Why a project could not be put together or written out.
#[derive(Clone, Copy, Debug, PartialEq, Eq, Structural)]
pub enum ProjectError {
    /// The year is not decimal digits, or does not fit.
    InvalidYear,
    /// A member that holds text is not UTF-8.
    InvalidText,
    /// One of the members that every project has is absent.
    MissingMember,
    /// A program file gave no document.
    File(ParseError),
    /// Writing a project out is not supported.
    OutputUnsupported,
}

/// One member of the archive of a project: its name and what it holds.
#[derive(Clone, Debug, PartialEq, Eq)]
pub struct Member {
    pub name: String,
    pub contents: Vec<u8>,
}

/// What a `Member` holds.
pub struct MemberView {
    pub name: Seq<char>,
    pub contents: Seq<u8>,
}

impl View for Member {
    type V = MemberView;

    open spec fn view(&self) -> MemberView {
        MemberView { name: self.name@, contents: self.contents@ }
    }
}

/// What a list of members holds.
pub open spec fn member_views(members: Seq<Member>) -> Seq<MemberView> {
    Seq::new(members.len(), |i: int| members[i]@)
}

/// A project: what its archive says of it, and the documents of its program files in
/// the order of the archive.
#[derive(Debug)]
pub struct Project {
    pub title: String,
    pub description: String,
    pub year: usize,
    pub thumbnail: Vec<u8>,
    pub activity: String,
    pub activity_assets: Vec<u8>,
    pub project: String,
    pub files: Vec<File>,
}

/// What a project holds.
pub struct ProjectView {
    pub title: Seq<char>,
    pub description: Seq<char>,
    pub year: usize,
    pub thumbnail: Seq<u8>,
    pub activity: Seq<char>,
    pub activity_assets: Seq<u8>,
    pub project: Seq<char>,
    pub files: Seq<DocumentView>,
}

/// What a list of documents holds.
pub open spec fn file_views(files: Seq<File>) -> Seq<DocumentView> {
    Seq::new(files.len(), |i: int| files[i]@)
}

impl View for Project {
    type V = ProjectView;

    open spec fn view(&self) -> ProjectView {
        ProjectView {
            title: self.title@,
            description: self.description@,
            year: self.year,
            thumbnail: self.thumbnail@,
            activity: self.activity@,
            activity_assets: self.activity_assets@,
            project: self.project@,
            files: file_views(self.files@),
        }
    }
}

/// What has been found of a project among the members seen so far.
pub struct Parts {
    pub title: Option<Seq<char>>,
    pub description: Option<Seq<char>>,
    pub year: Option<usize>,
    pub thumbnail: Option<Seq<u8>>,
    pub activity: Option<Seq<char>>,
    pub activity_assets: Option<Seq<u8>>,
    pub project: Option<Seq<char>>,
    pub files: Seq<DocumentView>,
}

/// Nothing found yet.
pub open spec fn no_parts() -> Parts {
    Parts {
        title: None,
        description: None,
        year: None,
        thumbnail: None,
        activity: None,
        activity_assets: None,
        project: None,
        files: Seq::empty(),
    }
}

/// The bytes as characters, one for one.
pub open spec fn byte_chars(bytes: Seq<u8>) -> Seq<char> {
    Seq::new(bytes.len(), |i: int| bytes[i] as char)
}

/// The year that the bytes of the year member give: they are decimal digits, and the
/// number fits a `usize`. No bytes give the year 0.
pub open spec fn year_of(bytes: Seq<u8>) -> Option<usize> {
    digits_value(byte_chars(bytes))
}

/// The text that a member holds, which must be UTF-8.
pub open spec fn member_text(bytes: Seq<u8>) -> Result<Seq<char>, ProjectError> {
    match text_of(bytes) {
        Some(text) => Ok(text),
        None => Err(ProjectError::InvalidText),
    }
}

/// What is found after one more member. A member with one of the seven names that
/// every project has is kept under that name, a later one in place of an earlier one;
/// every other member is a program file, whose document is entered.
pub open spec fn with_member(parts: Parts, name: Seq<char>, contents: Seq<u8>) -> Result<Parts, ProjectError> {
    if name == "___CopyrightYear"@ {
        match year_of(contents) {
            Some(year) => Ok(Parts { year: Some(year), ..parts }),
            None => Err(ProjectError::InvalidYear),
        }
    } else if name == "___ProjectDescription"@ {
        match member_text(contents) {
            Ok(text) => Ok(Parts { description: Some(text), ..parts }),
            Err(e) => Err(e),
        }
    } else if name == "___ProjectTitle"@ {
        match member_text(contents) {
            Ok(text) => Ok(Parts { title: Some(text), ..parts }),
            Err(e) => Err(e),
        }
    } else if name == "___ProjectThumbnail"@ {
        Ok(Parts { thumbnail: Some(contents), ..parts })
    } else if name == "ActivityAssets.laz"@ {
        Ok(Parts { activity_assets: Some(contents), ..parts })
    } else if name == "Activity.x3a"@ {
        match member_text(contents) {
            Ok(text) => Ok(Parts { activity: Some(text), ..parts }),
            Err(e) => Err(e),
        }
    } else if name == "Project.lvprojx"@ {
        match member_text(contents) {
            Ok(text) => Ok(Parts { project: Some(text), ..parts }),
            Err(e) => Err(e),
        }
    } else {
        match file_document(name, contents) {
            Ok(document) => Ok(Parts { files: parts.files.push(document), ..parts }),
            Err(e) => Err(ProjectError::File(e)),
        }
    }
}

/// What is found among `members`, taken in their order; the first member that is an
/// error decides.
pub open spec fn gathered_parts(members: Seq<MemberView>) -> Result<Parts, ProjectError>
    decreases members.len(),
{
    if members.len() == 0 {
        Ok(no_parts())
    } else {
        match gathered_parts(members.drop_last()) {
            Err(e) => Err(e),
            Ok(parts) => with_member(parts, members.last().name, members.last().contents),
        }
    }
}

/// The project that the parts make up, none of which may be absent.
pub open spec fn project_of(parts: Parts) -> Result<ProjectView, ProjectError> {
    match (
        parts.title,
        parts.description,
        parts.year,
        parts.thumbnail,
        parts.activity,
        parts.activity_assets,
        parts.project,
    ) {
        (
            Some(title),
            Some(description),
            Some(year),
            Some(thumbnail),
            Some(activity),
            Some(activity_assets),
            Some(project),
        ) => Ok(
            ProjectView {
                title,
                description,
                year,
                thumbnail,
                activity,
                activity_assets,
                project,
                files: parts.files,
            },
        ),
        _ => Err(ProjectError::MissingMember),
    }
}

/// The project that `members` make up.
pub open spec fn assembled(members: Seq<MemberView>) -> Result<ProjectView, ProjectError> {
    match gathered_parts(members) {
        Err(e) => Err(e),
        Ok(parts) => project_of(parts),
    }
}

/// An error among the members up to a place is the error of all the members.
pub proof fn lemma_gathered_parts_error(members: Seq<MemberView>, k: int)
    requires
        0 <= k <= members.len(),
        gathered_parts(members.take(k)) is Err,
    ensures
        gathered_parts(members) == gathered_parts(members.take(k)),
    decreases members.len(),
{
    if k == members.len() {
        assert(members.take(k) =~= members);
    } else {
        assert(members.drop_last().take(k) =~= members.take(k));
        lemma_gathered_parts_error(members.drop_last(), k);
    }
}

/// Reads the year out of the bytes of its member.
pub fn parse_year(bytes: &[u8]) -> (r: Option<usize>)
    ensures
        r == year_of(bytes@),
{
    let mut digits: Vec<char> = Vec::new();
    let mut i: usize = 0;
    while i < bytes.len()
        invariant
            i <= bytes@.len(),
            digits@ == byte_chars(bytes@).take(i as int),
        decreases bytes.len() - i,
    {
        digits.push(bytes[i] as char);
        assert(digits@ =~= byte_chars(bytes@).take(i + 1));
        i += 1;
    }
    assert(digits@ =~= byte_chars(bytes@));
    parse_digits(digits.as_slice())
}

/// What has been found of a project among the members seen so far.
#[derive(Debug)]
pub struct PartsFound {
    pub title: Option<String>,
    pub description: Option<String>,
    pub year: Option<usize>,
    pub thumbnail: Option<Vec<u8>>,
    pub activity: Option<String>,
    pub activity_assets: Option<Vec<u8>>,
    pub project: Option<String>,
    pub files: Vec<File>,
}

impl View for PartsFound {
    type V = Parts;

    open spec fn view(&self) -> Parts {
        Parts {
            title: text_view(self.title),
            description: text_view(self.description),
            year: self.year,
            thumbnail: bytes_view(self.thumbnail),
            activity: text_view(self.activity),
            activity_assets: bytes_view(self.activity_assets),
            project: text_view(self.project),
            files: file_views(self.files@),
        }
    }
}

/// Reads the text of a member.
fn parse_member_text(bytes: &[u8]) -> (r: Result<String, ProjectError>)
    ensures
        match (r, member_text(bytes@)) {
            (Ok(text), Ok(t)) => text@ == t,
            (Err(e), Err(d)) => e == d,
            _ => false,
        },
{
    match decode_text(bytes) {
        Some(text) => Ok(text),
        None => Err(ProjectError::InvalidText),
    }
}

impl PartsFound {
    /// Nothing found yet.
    pub fn new() -> (r: Self)
        ensures
            r@ == no_parts(),
    {
        let r = PartsFound {
            title: None,
            description: None,
            year: None,
            thumbnail: None,
            activity: None,
            activity_assets: None,
            project: None,
            files: Vec::new(),
        };
        assert(file_views(r.files@) =~= Seq::empty());
        r
    }

    /// Takes in one more member. A program file is built into its document on the way.
    pub fn enter(&mut self, member: &Member) -> (r: Result<(), ProjectError>)
        ensures
            match (r, with_member(old(self)@, member.name@, member.contents@)) {
                (Ok(()), Ok(parts)) => final(self)@ == parts,
                (Err(e), Err(d)) => e == d && final(self)@ == old(self)@,
                _ => false,
            },
    {
        let name = member.name.as_str();
        let bytes = member.contents.as_slice();
        let r = if str_eq(name, "___CopyrightYear") {
            match parse_year(bytes) {
                Some(year) => {
                    self.year = Some(year);
                    Ok(())
                },
                None => Err(ProjectError::InvalidYear),
            }
        } else if str_eq(name, "___ProjectDescription") {
            match parse_member_text(bytes) {
                Ok(text) => {
                    self.description = Some(text);
                    Ok(())
                },
                Err(e) => Err(e),
            }
        } else if str_eq(name, "___ProjectTitle") {
            match parse_member_text(bytes) {
                Ok(text) => {
                    self.title = Some(text);
                    Ok(())
                },
                Err(e) => Err(e),
            }
        } else if str_eq(name, "___ProjectThumbnail") {
            self.thumbnail = Some(member.contents.clone());
            Ok(())
        } else if str_eq(name, "ActivityAssets.laz") {
            self.activity_assets = Some(member.contents.clone());
            Ok(())
        } else if str_eq(name, "Activity.x3a") {
            match parse_member_text(bytes) {
                Ok(text) => {
                    self.activity = Some(text);
                    Ok(())
                },
                Err(e) => Err(e),
            }
        } else if str_eq(name, "Project.lvprojx") {
            match parse_member_text(bytes) {
                Ok(text) => {
                    self.project = Some(text);
                    Ok(())
                },
                Err(e) => Err(e),
            }
        } else {
            let contents = member.contents.clone();
            assert(contents@ =~= member.contents@);
            match File::new(name, contents) {
                Ok(file) => {
                    self.files.push(file);
                    assert(file_views(self.files@) =~= file_views(old(self).files@).push(file@));
                    Ok(())
                },
                Err(e) => Err(ProjectError::File(e)),
            }
        };
        r
    }

    /// Makes the project out of its parts, none of which may be absent.
    pub fn finish(self) -> (r: Result<Project, ProjectError>)
        ensures
            match (r, project_of(self@)) {
                (Ok(project), Ok(p)) => project@ == p,
                (Err(e), Err(d)) => e == d,
                _ => false,
            },
    {
        match (
            self.title,
            self.description,
            self.year,
            self.thumbnail,
            self.activity,
            self.activity_assets,
            self.project,
        ) {
            (
                Some(title),
                Some(description),
                Some(year),
                Some(thumbnail),
                Some(activity),
                Some(activity_assets),
                Some(project),
            ) => Ok(
                Project {
                    title,
                    description,
                    year,
                    thumbnail,
                    activity,
                    activity_assets,
                    project,
                    files: self.files,
                },
            ),
            _ => Err(ProjectError::MissingMember),
        }
    }
}

impl Project {
    /// Puts a project together out of the members of its archive, taken in their order.
    pub fn from_members(members: Vec<Member>) -> (r: Result<Project, ProjectError>)
        ensures
            match (r, assembled(member_views(members@))) {
                (Ok(project), Ok(p)) => project@ == p,
                (Err(e), Err(d)) => e == d,
                _ => false,
            },
    {
        let mut parts = PartsFound::new();
        let ghost views = member_views(members@);
        let mut i: usize = 0;
        while i < members.len()
            invariant
                i <= members@.len(),
                views == member_views(members@),
                gathered_parts(views.take(i as int)) == Ok::<Parts, ProjectError>(parts@),
            decreases members.len() - i,
        {
            assert(views.take(i + 1).drop_last() =~= views.take(i as int));
            assert(views.take(i + 1).last() == members@[i as int]@);
            match parts.enter(&members[i]) {
                Ok(()) => {},
                Err(e) => {
                    proof {
                        lemma_gathered_parts_error(views, i + 1);
                    }
                    return Err(e);
                },
            }
            i += 1;
        }
        assert(views.take(i as int) =~= views);
        parts.finish()
    }

    /// Writes the project out, which is not supported: it always fails.
    pub fn output_file(&self, fname: &str) -> (r: Result<(), ProjectError>)
        ensures
            r == Err::<(), ProjectError>(ProjectError::OutputUnsupported),
    {
        Err(ProjectError::OutputUnsupported)
    }
}

} // verus!
