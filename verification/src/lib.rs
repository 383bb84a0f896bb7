//! Static analysis of desktop applications: what a package holds, which
//! framework an application is built on, how it is hardened, and which
//! advisories concern it.

pub mod analyze;
pub mod analyze_laws;
pub mod assess;
pub mod audit;
pub mod bytes;
pub mod cve;
pub mod detect;
pub mod fixture;
pub mod laws;
pub mod netmon;
pub mod num;
pub mod object;
pub mod path;
pub mod pkg;
pub mod plist;
pub mod report_laws;
pub mod reports;
pub mod sorted;
pub mod text;
pub mod upload;
pub mod version;
pub mod vfs;
pub mod xml_date;
