//! Executable images, reduced to the facts that are read off them.

use vstd::prelude::*;

use crate::bytes::{begins, begins_with};
use crate::text::{opt_text, texts};

verus! {

/// What the optional header of a PE image tells.
#[derive(Debug, Clone, Copy)]
pub struct PeOptional {
    /// `DllCharacteristics`.
    pub characteristics: u16,
    /// The certificate table, as its entry states it: an offset and a size.
    pub certificates: Option<(u32, u32)>,
}

/// An image of any format.
#[derive(Debug)]
pub enum Object {
    Elf { libraries: Vec<String> },
    Pe { libraries: Vec<String>, optional: Option<PeOptional> },
    /// Another format, or none.
    Other,
}

/// The model of an [`Object`].
pub enum ObjectView {
    Elf(Seq<Seq<char>>),
    Pe(Seq<Seq<char>>, Option<PeOptional>),
    Other,
}

impl View for Object {
    type V = ObjectView;

    open spec fn view(&self) -> ObjectView {
        match *self {
            Object::Elf { libraries } => ObjectView::Elf(texts(libraries@)),
            Object::Pe { libraries, optional } => ObjectView::Pe(texts(libraries@), optional),
            Object::Other => ObjectView::Other,
        }
    }
}

/// Whether `b` opens as an ELF or a PE image does.
pub open spec fn is_image(b: Seq<u8>) -> bool {
    begins(b, seq![0x7fu8, 0x45, 0x4c, 0x46]) || begins(b, seq![0x4du8, 0x5a])
}

fn is_image_of(b: &[u8]) -> (r: bool)
    ensures
        r == is_image(b@),
{
    let elf: [u8; 4] = [0x7f, 0x45, 0x4c, 0x46];
    let pe: [u8; 2] = [0x4d, 0x5a];
    assert(elf@ =~= seq![0x7fu8, 0x45, 0x4c, 0x46]);
    assert(pe@ =~= seq![0x4du8, 0x5a]);
    begins_with(b, elf.as_slice()) || begins_with(b, pe.as_slice())
}

/// What `goblin::Object::parse` reads out of an image: the libraries that an ELF image
/// (`DT_NEEDED`) or a PE image (import table) links, and a PE image's optional header.
pub uninterp spec fn image_of(bytes: Seq<u8>) -> ObjectView;

/// `goblin::Object::parse`: the facts of an [`Object`], as they stand in what it
/// returns; [`Object::Other`] where it fails. The outcome depends on the bytes alone. Only
/// what opens as an ELF or a PE image does is handed over, so that its readers of other
/// formats are never reached.
#[verifier::external_body]
fn parse_image(bytes: &[u8]) -> (r: Object)
    requires
        is_image(bytes@),
    ensures
        r@ == image_of(bytes@),
{
    match goblin::Object::parse(bytes) {
        Ok(goblin::Object::Elf(elf)) => Object::Elf {
            libraries: elf.libraries.iter().map(|l| l.to_string()).collect(),
        },
        Ok(goblin::Object::PE(pe)) => Object::Pe {
            libraries: pe.libraries.iter().map(|l| l.to_string()).collect(),
            optional: pe.header.optional_header.map(|h| PeOptional {
                characteristics: h.windows_fields.dll_characteristics,
                certificates: h.data_directories.get_certificate_table().map(|d| (d.virtual_address, d.size)),
            }),
        },
        _ => Object::Other,
    }
}

/// The facts that bytes give, whatever their format.
pub open spec fn object_of(bytes: Seq<u8>) -> ObjectView {
    if is_image(bytes) {
        image_of(bytes)
    } else {
        ObjectView::Other
    }
}

/// The facts that bytes give, whatever their format.
pub fn parse_object(bytes: &[u8]) -> (r: Object)
    ensures
        r@ == object_of(bytes@),
{
    if is_image_of(bytes) {
        parse_image(bytes)
    } else {
        Object::Other
    }
}

/// An ELF image.
#[derive(Debug)]
pub struct ElfImage {
    /// `e_type`.
    pub kind: u16,
    /// The type and the flags of each program header.
    pub segments: Vec<(u32, u32)>,
    /// The tag and the value of each dynamic entry.
    pub dynamic: Option<Vec<(u64, u64)>>,
    /// The name of each dynamic symbol, where the string table has it.
    pub symbols: Vec<Option<String>>,
}

/// The model of an [`ElfImage`].
pub struct ElfView {
    pub kind: u16,
    pub segments: Seq<(u32, u32)>,
    pub dynamic: Option<Seq<(u64, u64)>>,
    pub symbols: Seq<Option<Seq<char>>>,
}

impl View for ElfImage {
    type V = ElfView;

    open spec fn view(&self) -> ElfView {
        ElfView {
            kind: self.kind,
            segments: self.segments@,
            dynamic: match self.dynamic {
                Some(d) => Some(d@),
                None => None,
            },
            symbols: self.symbols@.map_values(|s: Option<String>| opt_text(s)),
        }
    }
}

/// What `goblin::elf::Elf::parse` reads out of `bytes`; none where it fails.
pub uninterp spec fn elf_of(bytes: Seq<u8>) -> Option<ElfView>;

/// `goblin::elf::Elf::parse`: the facts of an [`ElfImage`], as they stand in what it
/// returns, each symbol with the name that `Strtab::get_at` finds for it. The outcome
/// depends on the bytes alone.
#[verifier::external_body]
pub(crate) fn parse_elf(bytes: &[u8]) -> (r: Option<ElfImage>)
    ensures
        match r {
            Some(e) => elf_of(bytes@) == Some(e@),
            None => elf_of(bytes@) is None,
        },
{
    let elf = goblin::elf::Elf::parse(bytes).ok()?;
    let names = &elf.dynstrtab;
    Some(ElfImage {
        kind: elf.header.e_type,
        segments: elf.program_headers.iter().map(|p| (p.p_type, p.p_flags)).collect(),
        dynamic: elf.dynamic.map(|d| d.dyns.iter().map(|e| (e.d_tag, e.d_val)).collect()),
        symbols: elf.dynsyms.iter().map(|s| names.get_at(s.st_name).map(|n| n.to_string())).collect(),
    })
}

} // verus!
