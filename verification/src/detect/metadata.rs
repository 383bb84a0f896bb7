//! Per-OS application metadata: name, version, identifier, and the primary
//! executable. macOS reads `Info.plist` (see [`crate::detect::bundle`]); Windows
//! reads the PE version resource; Linux uses the name carried from the `.desktop`
//! entry by discovery.

use vstd::prelude::*;

use crate::detect::app::{AppView, DiscoveredApp};
use crate::detect::bundle::{info_at, no_info, BundleInfo, BundleView};
use crate::detect::version_resource::{version_value, version_values};
use crate::text::{
    chars_of, concat3, copy_opt, opt_text, or_opt, or_text, trim, trim_of, CharClass,
};
use crate::vfs::{contents, MemTree, Platform, Tree};

verus! {

/// The strings of a version resource that are read.
pub struct VersionStrings {
    pub product_name: Option<String>,
    pub file_description: Option<String>,
    pub company_name: Option<String>,
    pub product_version: Option<String>,
    pub file_version: Option<String>,
}

/// The model of version strings.
#[verifier::ext_equal]
pub struct VersionTexts {
    pub product_name: Option<Seq<char>>,
    pub file_description: Option<Seq<char>>,
    pub company_name: Option<Seq<char>>,
    pub product_version: Option<Seq<char>>,
    pub file_version: Option<Seq<char>>,
}

impl View for VersionStrings {
    type V = VersionTexts;

    open spec fn view(&self) -> VersionTexts {
        VersionTexts {
            product_name: opt_text(self.product_name),
            file_description: opt_text(self.file_description),
            company_name: opt_text(self.company_name),
            product_version: opt_text(self.product_version),
            file_version: opt_text(self.file_version),
        }
    }
}

/// The strings in the version resource of an image.
pub open spec fn version_texts(image: Seq<u8>) -> VersionTexts {
    VersionTexts {
        product_name: version_value(image, "ProductName"@),
        file_description: version_value(image, "FileDescription"@),
        company_name: version_value(image, "CompanyName"@),
        product_version: version_value(image, "ProductVersion"@),
        file_version: version_value(image, "FileVersion"@),
    }
}

/// Reads the version resource of an image.
pub fn version_strings(image: &[u8]) -> (r: VersionStrings)
    ensures
        r@ == version_texts(image@),
{
    let keys: Vec<&str> = vec![
        "ProductName",
        "FileDescription",
        "CompanyName",
        "ProductVersion",
        "FileVersion",
    ];
    let mut values = version_values(image, &keys);
    let ghost all = values@;
    assert(opt_text(all[0]) == version_value(image@, keys@[0]@));
    assert(opt_text(all[1]) == version_value(image@, keys@[1]@));
    assert(opt_text(all[2]) == version_value(image@, keys@[2]@));
    assert(opt_text(all[3]) == version_value(image@, keys@[3]@));
    assert(opt_text(all[4]) == version_value(image@, keys@[4]@));
    let product_name = values.remove(0);
    let file_description = values.remove(0);
    let company_name = values.remove(0);
    let product_version = values.remove(0);
    let file_version = values.remove(0);
    VersionStrings { product_name, file_description, company_name, product_version, file_version }
}

/// A value that is more than white space.
pub open spec fn not_blank(v: Option<Seq<char>>) -> Option<Seq<char>> {
    match v {
        Some(s) => if trim(s, CharClass::White).len() == 0 {
            None
        } else {
            Some(s)
        },
        None => None,
    }
}

fn not_blank_of(v: &Option<String>) -> (r: Option<String>)
    ensures
        opt_text(r) == not_blank(opt_text(*v)),
{
    match v {
        Some(s) => {
            if trim_of(&chars_of(s.as_str()), CharClass::White).len() == 0 {
                None
            } else {
                Some(s.clone())
            }
        },
        None => None,
    }
}

/// What a version resource says of an executable. The identifier is synthesised from
/// company and product.
pub open spec fn resource_info(v: VersionTexts, exe: Seq<char>) -> BundleView {
    let product = or_text(not_blank(v.product_name), not_blank(v.file_description));
    BundleView {
        executable: Some(exe),
        display_name: product,
        bundle_version: or_text(not_blank(v.product_version), not_blank(v.file_version)),
        bundle_id: match (not_blank(v.company_name), product) {
            (Some(c), Some(p)) => Some(c + "."@ + p),
            (None, Some(p)) => Some(p),
            _ => None,
        },
    }
}

/// Reads version strings.
pub fn resource_info_of(v: &VersionStrings, exe: &str) -> (r: BundleInfo)
    ensures
        r@ == resource_info(v@, exe@),
{
    let product = or_opt(not_blank_of(&v.product_name), not_blank_of(&v.file_description));
    let bundle_id = match (not_blank_of(&v.company_name), &product) {
        (Some(c), Some(p)) => Some(concat3(c.as_str(), ".", p.as_str())),
        (None, Some(p)) => Some(p.clone()),
        _ => None,
    };
    BundleInfo {
        bundle_id,
        display_name: product,
        bundle_version: or_opt(not_blank_of(&v.product_version), not_blank_of(&v.file_version)),
        executable: Some(exe.to_owned()),
    }
}

/// What an executable in the tree says of itself: its version resource, and where it cannot
/// be read only its own path.
pub open spec fn executable_info(t: Tree, exe: Seq<char>) -> BundleView {
    match contents(t, exe) {
        Some(image) => resource_info(version_texts(image), exe),
        None => BundleView { executable: Some(exe), ..no_info() },
    }
}

/// Read the PE `VS_VERSIONINFO` resource for product name / version / company. Best
/// effort — a binary with no version resource yields only its own path.
pub fn read_pe_metadata(tree: &MemTree, exe: &str) -> (r: BundleInfo)
    ensures
        r@ == executable_info(tree@, exe@),
{
    match tree.read(exe) {
        Some(image) => resource_info_of(&version_strings(image), exe),
        None => BundleInfo {
            bundle_id: None,
            display_name: None,
            bundle_version: None,
            executable: Some(exe.to_owned()),
        },
    }
}

/// The metadata of an application, with what discovery knows where the platform exposes
/// nothing.
pub open spec fn metadata_of(t: Tree, platform: Platform, app: AppView) -> BundleView {
    match platform {
        Platform::Macos => {
            let info = info_at(t, app.root);
            BundleView { executable: or_text(info.executable, app.executable), ..info }
        },
        Platform::Windows => {
            let info = match app.executable {
                Some(exe) => executable_info(t, exe),
                None => no_info(),
            };
            BundleView { display_name: or_text(info.display_name, app.name), ..info }
        },
        Platform::Linux => BundleView {
            display_name: app.name,
            executable: app.executable,
            ..no_info()
        },
    }
}

/// Read whatever metadata the platform exposes for `app`, falling back to
/// fields already present on the [`DiscoveredApp`].
pub fn read(tree: &MemTree, platform: Platform, app: &DiscoveredApp) -> (r: BundleInfo)
    ensures
        r@ == metadata_of(tree@, platform, app@),
{
    match platform {
        Platform::Macos => {
            let info = crate::detect::bundle::read(tree, app.root.as_str());
            BundleInfo {
                bundle_id: info.bundle_id,
                display_name: info.display_name,
                bundle_version: info.bundle_version,
                executable: or_opt(info.executable, copy_opt(&app.executable)),
            }
        },
        Platform::Windows => {
            let info = match &app.executable {
                Some(e) => read_pe_metadata(tree, e.as_str()),
                None => BundleInfo::default(),
            };
            BundleInfo {
                bundle_id: info.bundle_id,
                display_name: or_opt(info.display_name, copy_opt(&app.name)),
                bundle_version: info.bundle_version,
                executable: or_opt(info.executable, copy_opt(&app.executable)),
            }
        },
        // `.desktop` `Name=` is the only reliable display name; the binary
        // rarely embeds one.
        Platform::Linux => BundleInfo {
            bundle_id: None,
            display_name: copy_opt(&app.name),
            bundle_version: None,
            executable: copy_opt(&app.executable),
        },
    }
}

} // verus!
