//! Configuration files of the managed bot: built-in templates for files that
//! do not exist yet, the backup a write must take first, what a restore
//! copies where, and the laws that tie writes, listings and restores together.

use vstd::prelude::*;
use crate::backups::{
    backup_file_name, backup_name_of, lemma_restore_target_of_backup, newest_first, restore_target,
    restore_target_of, BACKUP_SUFFIX,
};
use crate::clock::{
    backup_timestamp, lemma_timestamp_len, lemma_timestamp_no_dots, lemma_timestamp_order, local_now,
    time_before, timestamp_of, LocalTime,
};
use crate::errors::ErrorKind;
use crate::text::{lemma_lt_after_common_prefix, lemma_lt_prefix_decides, same_text, text_lt};

verus! {

/// The bot's main configuration file.
pub const BASE_CONFIG_FILE: &'static str = "application.yaml";

/// The bot's display-template configuration file.
pub const TEMPLATE_CONFIG_FILE: &'static str = "template.yaml";

pub const BASE_CONFIG_TEMPLATE: &'static str = "# DDBOT-WSa 配置文件\n# 请根据需要修改配置\n\n# 基础配置\nlog_level: info\n\n# Admin API 配置\nadmin:\n  enable: false\n  addr: \"127.0.0.1:15631\"\n  token: \"\"\n\n# 其他配置...\n";

pub const DISPLAY_CONFIG_TEMPLATE: &'static str = "# 模板配置文件\n# 在这里定义您的模板配置\n\ntemplates:\n  - name: \"默认模板\"\n    content: |\n      这是一个示例模板\n";

/// What reading `filename` yields when the file does not exist.
pub open spec fn template_for(filename: Seq<char>) -> Seq<char> {
    if filename == BASE_CONFIG_FILE@ {
        BASE_CONFIG_TEMPLATE@
    } else if filename == TEMPLATE_CONFIG_FILE@ {
        DISPLAY_CONFIG_TEMPLATE@
    } else {
        Seq::empty()
    }
}

/// What reading `filename` yields, given its stored content if it exists.
pub open spec fn config_text_of(filename: Seq<char>, stored: Option<Seq<char>>) -> Seq<char> {
    match stored {
        Some(c) => c,
        None => template_for(filename),
    }
}

/// The built-in content for a configuration file that does not exist yet:
/// a template for the known names, empty text for any other.
pub fn get_default_config_template(filename: &str) -> (r: String)
    ensures
        r@ == template_for(filename@),
{
    if same_text(filename, BASE_CONFIG_FILE) {
        String::from_str(BASE_CONFIG_TEMPLATE)
    } else if same_text(filename, TEMPLATE_CONFIG_FILE) {
        String::from_str(DISPLAY_CONFIG_TEMPLATE)
    } else {
        String::new()
    }
}

/// The text of a configuration file: its content where it exists, else the
/// built-in default. A missing file is never an error.
pub fn config_text(filename: &str, stored: Option<String>) -> (r: String)
    ensures
        r@ == config_text_of(filename@, match stored { Some(c) => Some(c@), None => None }),
{
    match stored {
        Some(c) => c,
        None => get_default_config_template(filename),
    }
}

/// The backup that a write of `filename` must make before it lands: one
/// named after the timestamp where the file exists, none otherwise.
pub fn backup_for_write(filename: &str, exists: bool, timestamp: &str) -> (r: Option<String>)
    ensures
        exists ==> (r matches Some(b) && b@ == backup_name_of(filename@, timestamp@)),
        !exists ==> r is None,
{
    if exists {
        Some(backup_file_name(filename, timestamp))
    } else {
        None
    }
}

/// The backup that a write of `filename` made now must take first: named
/// after the local time, whose date it starts with.
pub fn backup_for_write_now(filename: &str, exists: bool) -> (r: Option<String>)
    ensures
        exists ==> (r matches Some(b) && exists|t: LocalTime| t.wf() && #[trigger] backup_name_of(filename@, timestamp_of(t)) == b@),
        !exists ==> r is None,
{
    if !exists {
        return None;
    }
    let now = local_now();
    let ts = backup_timestamp(now);
    let r = backup_for_write(filename, true, ts.as_str());
    proof {
        let b = r.unwrap();
        assert(backup_name_of(filename@, timestamp_of(now)) == b@);
    }
    r
}

/// Decides a restore of `backup_name`: the name must split into file name,
/// timestamp and suffix (else `InvalidBackupName`, checked first), and the
/// backup must exist (else `ConfigIo`). Yields the file to copy it over.
pub fn plan_restore(backup_name: &str, backup_exists: bool) -> (r: Result<String, ErrorKind>)
    ensures
        restore_target_of(backup_name@) is None ==> r == Err::<String, ErrorKind>(ErrorKind::InvalidBackupName),
        restore_target_of(backup_name@) is Some && !backup_exists ==> r == Err::<String, ErrorKind>(ErrorKind::ConfigIo),
        restore_target_of(backup_name@) is Some && backup_exists ==> (r matches Ok(t) && restore_target_of(backup_name@) == Some(t@)),
{
    match restore_target(backup_name) {
        None => Err(ErrorKind::InvalidBackupName),
        Some(t) => if backup_exists {
            Ok(t)
        } else {
            Err(ErrorKind::ConfigIo)
        },
    }
}

/// A backup that a write took restores to the file it was taken of.
pub proof fn lemma_written_backup_restores_to_source(filename: Seq<char>, t: LocalTime)
    ensures
        restore_target_of(backup_name_of(filename, timestamp_of(t))) == Some(filename),
{
    lemma_timestamp_no_dots(t);
    lemma_restore_target_of_backup(filename, timestamp_of(t));
}

/// A backup taken later sorts after one of the same file taken earlier.
pub proof fn lemma_later_backup_sorts_after(filename: Seq<char>, t1: LocalTime, t2: LocalTime)
    requires
        t1.wf(),
        t2.wf(),
        0 <= t1.year <= 9999,
        0 <= t2.year <= 9999,
        time_before(t1, t2),
    ensures
        text_lt(backup_name_of(filename, timestamp_of(t1)), backup_name_of(filename, timestamp_of(t2))),
{
    let p = filename + seq!['.'];
    let s1 = timestamp_of(t1);
    let s2 = timestamp_of(t2);
    lemma_timestamp_len(t1);
    lemma_timestamp_len(t2);
    lemma_timestamp_order(t1, t2);
    lemma_lt_prefix_decides(s1, s2, BACKUP_SUFFIX@, BACKUP_SUFFIX@);
    lemma_lt_after_common_prefix(p, s1 + BACKUP_SUFFIX@, s2 + BACKUP_SUFFIX@);
    assert(backup_name_of(filename, s1) =~= p + (s1 + BACKUP_SUFFIX@));
    assert(backup_name_of(filename, s2) =~= p + (s2 + BACKUP_SUFFIX@));
}

/// After two writes of `filename`, the second (at `t2`) backed up the content
/// that the first wrote. In a newest-first listing that holds that backup and
/// otherwise only backups of the file taken before `t2`, it comes first, and
/// restoring it writes `filename`: the file reads back the first write.
pub proof fn lemma_latest_backup_restores_previous_write(filename: Seq<char>, t2: LocalTime, listing: Seq<Seq<char>>)
    requires
        t2.wf(),
        0 <= t2.year <= 9999,
        newest_first(listing),
        listing.contains(backup_name_of(filename, timestamp_of(t2))),
        forall|i: int| 0 <= i < listing.len() ==> #[trigger] listing[i] == backup_name_of(filename, timestamp_of(t2)) || exists|t: LocalTime|
            t.wf() && 0 <= t.year <= 9999 && time_before(t, t2) && listing[i] == backup_name_of(filename, timestamp_of(t)),
    ensures
        listing[0] == backup_name_of(filename, timestamp_of(t2)),
        restore_target_of(listing[0]) == Some(filename),
{
    let b2 = backup_name_of(filename, timestamp_of(t2));
    let j = choose|j: int| 0 <= j < listing.len() && listing[j] == b2;
    if listing[0] != b2 {
        let t = choose|t: LocalTime| t.wf() && 0 <= t.year <= 9999 && time_before(t, t2) && listing[0] == backup_name_of(filename, timestamp_of(t));
        lemma_later_backup_sorts_after(filename, t, t2);
        assert(j != 0);
        assert(!text_lt(listing[0], listing[j]));
    }
    lemma_written_backup_restores_to_source(filename, t2);
}

/// Reading a known file that was never written gives non-empty content; any
/// other missing name gives empty content.
pub proof fn lemma_missing_file_text(filename: Seq<char>)
    ensures
        (filename == BASE_CONFIG_FILE@ || filename == TEMPLATE_CONFIG_FILE@) ==> config_text_of(filename, None).len() > 0,
        (filename != BASE_CONFIG_FILE@ && filename != TEMPLATE_CONFIG_FILE@) ==> config_text_of(filename, None).len() == 0,
{
    reveal_strlit("# DDBOT-WSa 配置文件\n# 请根据需要修改配置\n\n# 基础配置\nlog_level: info\n\n# Admin API 配置\nadmin:\n  enable: false\n  addr: \"127.0.0.1:15631\"\n  token: \"\"\n\n# 其他配置...\n");
    reveal_strlit("# 模板配置文件\n# 在这里定义您的模板配置\n\ntemplates:\n  - name: \"默认模板\"\n    content: |\n      这是一个示例模板\n");
}

} // verus!
