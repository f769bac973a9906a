//! The installation record, the checks on an existing deployment that is
//! imported, the platform keywords of release assets, and the log tail.

use vstd::prelude::*;
use crate::text::{chars_of, ends_with_chars, has_prefix, has_suffix, same_text, starts_with_chars};

verus! {

/// What the installer last installed: the release tag and the asset's name.
#[derive(Debug)]
pub struct InstalledInfo {
    pub tag_name: String,
    pub asset_name: String,
}

/// Whether the installed release is the one wanted and its binary is there,
/// so that installing again can be skipped.
pub fn is_current_install(info: &InstalledInfo, tag_name: &str, asset_name: &str, binary_exists: bool) -> (r: bool)
    ensures
        r == (info.tag_name@ == tag_name@ && info.asset_name@ == asset_name@ && binary_exists),
{
    same_text(info.tag_name.as_str(), tag_name) && same_text(info.asset_name.as_str(), asset_name) && binary_exists
}

/// The installed version for display: the tag, or a notice when nothing is
/// installed (`Ok(None)`) or the record could not be read (`Err`).
pub fn installed_version_text(info: Result<Option<InstalledInfo>, ()>) -> (r: String)
    ensures
        info matches Ok(Some(i)) ==> r@ == i.tag_name@,
        info matches Ok(None) ==> r@ == "未安装"@,
        info is Err ==> r@ == "未知"@,
{
    match info {
        Ok(Some(i)) => i.tag_name,
        Ok(None) => String::from_str("未安装"),
        Err(_) => String::from_str("未知"),
    }
}

/// Lower-case form of a text, as `str::to_lowercase` gives it.
pub uninterp spec fn lower_of(s: Seq<char>) -> Seq<char>;

/// Relies on `str::to_lowercase`: the result depends on the characters alone.
#[verifier::external_body]
fn lowercase(s: &str) -> (r: String)
    ensures
        r@ == lower_of(s@),
{
    s.to_lowercase()
}

pub open spec fn executable_file_name(windows: bool) -> Seq<char> {
    if windows {
        "ddbot.exe"@
    } else {
        "ddbot"@
    }
}

/// Whether a directory entry is the bot's executable: a regular file named
/// `ddbot` (`ddbot.exe` on Windows) in any letter case.
pub fn looks_like_ddbot_executable(is_file: bool, file_name: &str, windows: bool) -> (r: bool)
    ensures
        r == (is_file && lower_of(file_name@) == executable_file_name(windows)),
{
    if !is_file {
        return false;
    }
    let name = lowercase(file_name);
    if windows {
        same_text(name.as_str(), "ddbot.exe")
    } else {
        same_text(name.as_str(), "ddbot")
    }
}

/// Why a directory is not a deployment that can be imported.
#[derive(Clone, Copy, Debug, PartialEq, Eq, Structural)]
pub enum DeploymentError {
    SourceNotFound,
    NotADirectory,
    ExecutableNotFound,
    ConfigNotFound,
    DataStoreNotFound,
}

/// What the importer found in a candidate deployment directory.
#[derive(Clone, Copy, Debug, PartialEq, Eq, Structural)]
pub struct DeploymentProbe {
    pub exists: bool,
    pub is_dir: bool,
    pub has_executable: bool,
    pub has_config: bool,
    pub has_data_store: bool,
}

pub open spec fn deployment_check(p: DeploymentProbe) -> Result<(), DeploymentError> {
    if !p.exists {
        Err(DeploymentError::SourceNotFound)
    } else if !p.is_dir {
        Err(DeploymentError::NotADirectory)
    } else if !p.has_executable {
        Err(DeploymentError::ExecutableNotFound)
    } else if !p.has_config {
        Err(DeploymentError::ConfigNotFound)
    } else if !p.has_data_store {
        Err(DeploymentError::DataStoreNotFound)
    } else {
        Ok(())
    }
}

/// A deployment can be imported when the directory exists and holds the
/// executable, `application.yaml` and `.lsp.db`; the first missing piece,
/// in that order, is reported.
pub fn validate_existing_deployment(p: DeploymentProbe) -> (r: Result<(), DeploymentError>)
    ensures
        r == deployment_check(p),
{
    if !p.exists {
        Err(DeploymentError::SourceNotFound)
    } else if !p.is_dir {
        Err(DeploymentError::NotADirectory)
    } else if !p.has_executable {
        Err(DeploymentError::ExecutableNotFound)
    } else if !p.has_config {
        Err(DeploymentError::ConfigNotFound)
    } else if !p.has_data_store {
        Err(DeploymentError::DataStoreNotFound)
    } else {
        Ok(())
    }
}

pub open spec fn os_keyword_of(os: Seq<char>) -> Seq<char> {
    if os == "macos"@ {
        "darwin"@
    } else {
        os
    }
}

pub open spec fn arch_keywords_of(os_kw: Seq<char>, arch: Seq<char>) -> Seq<Seq<char>> {
    if arch == "x86_64"@ {
        seq!["amd64"@]
    } else if arch == "x86"@ || arch == "i686"@ {
        seq!["386"@]
    } else if arch == "aarch64"@ {
        if os_kw == "linux"@ || os_kw == "windows"@ {
            seq!["arm64"@, "arm"@]
        } else {
            seq!["arm64"@]
        }
    } else {
        seq![arch]
    }
}

/// The keywords that release asset names use for an OS and architecture (as
/// Rust names them), architectures in order of preference.
pub fn target_keywords(os: &str, arch: &str) -> (r: (String, Vec<String>))
    ensures
        r.0@ == os_keyword_of(os@),
        r.1@.map_values(|s: String| s@) == arch_keywords_of(os_keyword_of(os@), arch@),
{
    let os_kw = if same_text(os, "macos") {
        String::from_str("darwin")
    } else {
        String::from_str(os)
    };
    let mut kws: Vec<String> = Vec::new();
    if same_text(arch, "x86_64") {
        kws.push(String::from_str("amd64"));
    } else if same_text(arch, "x86") || same_text(arch, "i686") {
        kws.push(String::from_str("386"));
    } else if same_text(arch, "aarch64") {
        kws.push(String::from_str("arm64"));
        if same_text(os_kw.as_str(), "linux") || same_text(os_kw.as_str(), "windows") {
            kws.push(String::from_str("arm"));
        }
    } else {
        kws.push(String::from_str(arch));
    }
    proof {
        assert(kws@.map_values(|s: String| s@) =~= arch_keywords_of(os_keyword_of(os@), arch@));
    }
    (os_kw, kws)
}

/// The archive formats that releases are published in.
#[derive(Clone, Copy, Debug, PartialEq, Eq, Structural)]
pub enum ArchiveKind {
    Zip,
    TarGz,
}

pub open spec fn archive_kind_of(name: Seq<char>) -> Option<ArchiveKind> {
    if has_suffix(lower_of(name), ".zip"@) {
        Some(ArchiveKind::Zip)
    } else if has_suffix(lower_of(name), ".tar.gz"@) {
        Some(ArchiveKind::TarGz)
    } else {
        None
    }
}

/// The archive format of an asset, by its name's extension in any letter
/// case; `None` for a format that cannot be installed.
pub fn archive_kind(name: &str) -> (r: Option<ArchiveKind>)
    ensures
        r == archive_kind_of(name@),
{
    let lower = chars_of(lowercase(name).as_str());
    if ends_with_chars(&lower, &chars_of(".zip")) {
        Some(ArchiveKind::Zip)
    } else if ends_with_chars(&lower, &chars_of(".tar.gz")) {
        Some(ArchiveKind::TarGz)
    } else {
        None
    }
}

/// Whether an archive entry is the bot's executable: its path ends with
/// `ddbot` or `ddbot.exe` in any letter case.
pub fn is_executable_entry(path: &str) -> (r: bool)
    ensures
        r == (has_suffix(lower_of(path@), "ddbot.exe"@) || has_suffix(lower_of(path@), "ddbot"@)),
{
    let lower = chars_of(lowercase(path).as_str());
    ends_with_chars(&lower, &chars_of("ddbot.exe")) || ends_with_chars(&lower, &chars_of("ddbot"))
}

pub open spec fn asset_suffix(os_kw: Seq<char>, arch_kw: Seq<char>, ext: Seq<char>) -> Seq<char> {
    seq!['-'] + lower_of(os_kw) + seq!['-'] + lower_of(arch_kw) + ext
}

pub open spec fn framed(s: Seq<char>, prefix: Seq<char>, suffix: Seq<char>) -> bool {
    has_prefix(s, prefix) && has_suffix(s, suffix) && prefix.len() + suffix.len() <= s.len()
}

/// Release asset naming: `DDBOT-WSa-<anything>-<os>-<arch>.zip` or
/// `.tar.gz`, in any letter case.
pub open spec fn asset_name_matches_spec(name: Seq<char>, os_kw: Seq<char>, arch_kw: Seq<char>) -> bool {
    framed(lower_of(name), "ddbot-wsa-"@, asset_suffix(os_kw, arch_kw, ".zip"@)) || framed(
        lower_of(name),
        "ddbot-wsa-"@,
        asset_suffix(os_kw, arch_kw, ".tar.gz"@),
    )
}

fn suffix_chars(os_lower: &str, arch_lower: &str, ext: &str) -> (r: Vec<char>)
    ensures
        r@ == seq!['-'] + os_lower@ + seq!['-'] + arch_lower@ + ext@,
{
    let mut s = String::from_str("-");
    s.append(os_lower);
    s.append("-");
    s.append(arch_lower);
    s.append(ext);
    proof {
        reveal_strlit("-");
    }
    chars_of(s.as_str())
}

fn framed_chars(s: &Vec<char>, prefix: &Vec<char>, suffix: &Vec<char>) -> (r: bool)
    ensures
        r == framed(s@, prefix@, suffix@),
{
    prefix.len() as u128 + suffix.len() as u128 <= s.len() as u128 && starts_with_chars(s, prefix) && ends_with_chars(s, suffix)
}

/// Whether an asset name follows the release naming for an OS and
/// architecture keyword.
pub fn asset_name_matches(name: &str, os_kw: &str, arch_kw: &str) -> (r: bool)
    ensures
        r == asset_name_matches_spec(name@, os_kw@, arch_kw@),
{
    let lower = chars_of(lowercase(name).as_str());
    let os_lower = lowercase(os_kw);
    let arch_lower = lowercase(arch_kw);
    let prefix = chars_of("ddbot-wsa-");
    let zip = suffix_chars(os_lower.as_str(), arch_lower.as_str(), ".zip");
    let targz = suffix_chars(os_lower.as_str(), arch_lower.as_str(), ".tar.gz");
    framed_chars(&lower, &prefix, &zip) || framed_chars(&lower, &prefix, &targz)
}

pub open spec fn none_match(names: Seq<String>, os_kw: Seq<char>, arch_kw: Seq<char>) -> bool {
    forall|j: int| 0 <= j < names.len() ==> !asset_name_matches_spec(#[trigger] names[j]@, os_kw, arch_kw)
}

/// The asset to install: for the first architecture keyword that any asset
/// matches, the first asset that matches it.
pub fn pick_asset(names: &Vec<String>, os_kw: &str, arch_kws: &Vec<String>) -> (r: Option<usize>)
    ensures
        r matches Some(i) ==> i < names@.len() && exists|k: int|
            0 <= k < arch_kws@.len() && (forall|k2: int| 0 <= k2 < k ==> none_match(names@, os_kw@, #[trigger] arch_kws@[k2]@))
                && asset_name_matches_spec(names@[i as int]@, os_kw@, arch_kws@[k]@) && none_match(
                names@.subrange(0, i as int),
                os_kw@,
                arch_kws@[k]@,
            ),
        r is None ==> forall|k: int| 0 <= k < arch_kws@.len() ==> none_match(names@, os_kw@, #[trigger] arch_kws@[k]@),
{
    let mut k: usize = 0;
    while k < arch_kws.len()
        invariant
            k <= arch_kws@.len(),
            forall|k2: int| 0 <= k2 < k ==> none_match(names@, os_kw@, #[trigger] arch_kws@[k2]@),
        decreases arch_kws@.len() - k,
    {
        let mut i: usize = 0;
        while i < names.len()
            invariant
                k < arch_kws@.len(),
                i <= names@.len(),
                forall|k2: int| 0 <= k2 < k ==> none_match(names@, os_kw@, #[trigger] arch_kws@[k2]@),
                none_match(names@.subrange(0, i as int), os_kw@, arch_kws@[k as int]@),
            decreases names@.len() - i,
        {
            if asset_name_matches(names[i].as_str(), os_kw, arch_kws[k].as_str()) {
                proof {
                    let kk = k as int;
                    assert(0 <= kk < arch_kws@.len() && (forall|k2: int| 0 <= k2 < kk ==> none_match(names@, os_kw@, #[trigger] arch_kws@[k2]@))
                        && asset_name_matches_spec(names@[i as int]@, os_kw@, arch_kws@[kk]@)
                        && none_match(names@.subrange(0, i as int), os_kw@, arch_kws@[kk]@));
                }
                return Some(i);
            }
            proof {
                let sub = names@.subrange(0, i as int + 1);
                assert forall|j: int| 0 <= j < sub.len() implies !asset_name_matches_spec(#[trigger] sub[j]@, os_kw@, arch_kws@[k as int]@) by {
                    if j < i {
                        assert(sub[j] == names@.subrange(0, i as int)[j]);
                    }
                }
            }
            i += 1;
        }
        proof {
            assert(names@.subrange(0, names@.len() as int) =~= names@);
        }
        k += 1;
    }
    None
}

/// The last `n` of `lines` (all of them where there are fewer).
pub fn tail_lines(lines: Vec<String>, n: usize) -> (r: Vec<String>)
    ensures
        r@ == if lines@.len() > n {
            lines@.subrange(lines@.len() - n, lines@.len() as int)
        } else {
            lines@
        },
{
    let len = lines.len();
    if len <= n {
        return lines;
    }
    let start = len - n;
    let mut out: Vec<String> = Vec::new();
    let mut i: usize = start;
    while i < len
        invariant
            len == lines@.len(),
            start <= i <= len,
            out@ == lines@.subrange(start as int, i as int),
        decreases len - i,
    {
        out.push(lines[i].clone());
        proof {
            assert(out@ =~= lines@.subrange(start as int, i as int + 1));
        }
        i += 1;
    }
    out
}

} // verus!
