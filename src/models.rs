//! The records the index holds and the values read from the filesystem to
//! build them.

use vstd::prelude::*;

use crate::text::{decimal, lower_of, lowercase, push_decimal};

use chrono::{DateTime, Utc};

verus! {

pub const KB: u64 = 1024;
pub const MB: u64 = 1048576;
pub const GB: u64 = 1073741824;
pub const TB: u64 = 1099511627776;

/// `bytes * 10 / unit`, rounded to the nearest integer, ties to even.
pub open spec fn tenths(bytes: nat, unit: nat) -> nat
    recommends
        unit > 0,
{
    let q = bytes * 10 / unit;
    let r = bytes * 10 % unit;
    if 2 * r > unit || (2 * r == unit && q % 2 == 1) {
        q + 1
    } else {
        q
    }
}

/// `bytes / unit` with one decimal, followed by a space and `suffix`.
pub open spec fn scaled_text(bytes: nat, unit: nat, suffix: Seq<char>) -> Seq<char> {
    let t = tenths(bytes, unit);
    decimal(t / 10) + seq!['.'] + decimal(t % 10) + seq![' '] + suffix
}

/// A byte count as a human-readable size: whole bytes below one KiB, and
/// otherwise the largest binary unit up to TiB with one decimal.
pub open spec fn size_text(bytes: u64) -> Seq<char> {
    if bytes < KB {
        decimal(bytes as nat) + seq![' ', 'B']
    } else if bytes < MB {
        scaled_text(bytes as nat, KB as nat, seq!['K', 'B'])
    } else if bytes < GB {
        scaled_text(bytes as nat, MB as nat, seq!['M', 'B'])
    } else if bytes < TB {
        scaled_text(bytes as nat, GB as nat, seq!['G', 'B'])
    } else {
        scaled_text(bytes as nat, TB as nat, seq!['T', 'B'])
    }
}

fn push_scaled(s: &mut String, bytes: u64, unit: u64, suffix: &str)
    requires
        unit > 0,
    ensures
        final(s)@ == old(s)@ + scaled_text(bytes as nat, unit as nat, suffix@),
{
    let wide: u128 = bytes as u128 * 10;
    let q: u128 = wide / unit as u128;
    let r: u128 = wide % unit as u128;
    let t: u128 = if 2 * r > unit as u128 || (2 * r == unit as u128 && q % 2 == 1) {
        q + 1
    } else {
        q
    };
    assert(t == tenths(bytes as nat, unit as nat));
    assert(q <= bytes * 10) by (nonlinear_arith)
        requires
            q == wide / unit as u128,
            wide == bytes * 10,
            unit > 0,
    ;
    assert(t / 10 <= bytes);
    proof {
        reveal_strlit(".");
        reveal_strlit(" ");
    }
    push_decimal(s, (t / 10) as u64);
    s.append(".");
    push_decimal(s, (t % 10) as u64);
    s.append(" ");
    s.append(suffix);
    assert(s@ =~= old(s)@ + scaled_text(bytes as nat, unit as nat, suffix@));
}


/// One file as the index and the listings report it.
#[derive(Debug, Clone)]
pub struct FileInfo {
    pub file_name: String,
    pub file_size: u64,
    pub modification_date: String,
    pub formatted_size: String,
    pub file_path: String,
    /// `file_name` lowercased once, so that a search need not fold it again.
    pub lower_name: String,
    /// "file", "directory", "symlink" or "unknown".
    pub file_type: String,
}

/// The value of a [`FileInfo`]: its fields as plain sequences.
pub ghost struct FileView {
    pub name: Seq<char>,
    pub size: u64,
    pub modified: Seq<char>,
    pub formatted_size: Seq<char>,
    pub path: Seq<char>,
    pub lower_name: Seq<char>,
    pub kind: Seq<char>,
}

impl View for FileInfo {
    type V = FileView;

    open spec fn view(&self) -> FileView {
        FileView {
            name: self.file_name@,
            size: self.file_size,
            modified: self.modification_date@,
            formatted_size: self.formatted_size@,
            path: self.file_path@,
            lower_name: self.lower_name@,
            kind: self.file_type@,
        }
    }
}

/// The record that [`FileInfo::new`] makes of these values.
pub open spec fn file_view(
    name: Seq<char>,
    size: u64,
    modified: Seq<char>,
    path: Seq<char>,
    kind: Seq<char>,
) -> FileView {
    FileView {
        name,
        size,
        modified,
        formatted_size: size_text(size),
        path,
        lower_name: lower_of(name),
        kind,
    }
}

impl FileInfo {
    /// A record whose lowercased name and formatted size are derived from
    /// `file_name` and `file_size`.
    pub fn new(
        file_name: String,
        file_size: u64,
        modification_date: String,
        file_path: String,
        file_type: String,
    ) -> (r: FileInfo)
        ensures
            r@ == file_view(file_name@, file_size, modification_date@, file_path@, file_type@),
    {
        let lower_name = lowercase(file_name.as_str());
        FileInfo {
            file_name,
            file_size,
            modification_date,
            formatted_size: Self::format_size(file_size),
            file_path,
            lower_name,
            file_type,
        }
    }

    /// A field-by-field copy of this record.
    pub fn duplicate(&self) -> (r: FileInfo)
        ensures
            r == *self,
    {
        FileInfo {
            file_name: self.file_name.clone(),
            file_size: self.file_size,
            modification_date: self.modification_date.clone(),
            formatted_size: self.formatted_size.clone(),
            file_path: self.file_path.clone(),
            lower_name: self.lower_name.clone(),
            file_type: self.file_type.clone(),
        }
    }

    /// `bytes` as a human-readable size ("512 B", "1.5 KB", "2.0 GB").
    pub fn format_size(bytes: u64) -> (r: String)
        ensures
            r@ == size_text(bytes),
    {
        let mut s = String::new();
        proof {
            reveal_strlit(" B");
            reveal_strlit("KB");
            reveal_strlit("MB");
            reveal_strlit("GB");
            reveal_strlit("TB");
        }
        if bytes < KB {
            push_decimal(&mut s, bytes);
            s.append(" B");
        } else if bytes < MB {
            push_scaled(&mut s, bytes, KB, "KB");
        } else if bytes < GB {
            push_scaled(&mut s, bytes, MB, "MB");
        } else if bytes < TB {
            push_scaled(&mut s, bytes, GB, "GB");
        } else {
            push_scaled(&mut s, bytes, TB, "TB");
        }
        assert(s@ =~= size_text(bytes));
        s
    }
}

/// What one metadata read reports of a filesystem entry. Size and time come
/// from the same read.
#[derive(Debug, Clone, Copy, PartialEq, Eq)]
pub struct EntryMetadata {
    pub size: u64,
    /// Whole seconds since the Unix epoch of the last modification, if the
    /// filesystem reports a time not before the epoch.
    pub modified_secs: Option<u64>,
    pub is_dir: bool,
    pub is_file: bool,
    pub is_symlink: bool,
}

/// The name of an entry's type, the first that holds of directory, regular
/// file and symbolic link, else "unknown".
pub open spec fn kind_name(is_dir: bool, is_file: bool, is_symlink: bool) -> Seq<char> {
    if is_dir {
        "directory"@
    } else if is_file {
        "file"@
    } else if is_symlink {
        "symlink"@
    } else {
        "unknown"@
    }
}

/// The type name of an entry that may not exist.
pub open spec fn kind_info_name(exists: bool, is_dir: bool, is_file: bool, is_symlink: bool) -> Seq<
    char,
> {
    if !exists {
        "not_found"@
    } else {
        kind_name(is_dir, is_file, is_symlink)
    }
}

/// The name of an entry's type from its metadata flags.
pub fn file_type_name(is_dir: bool, is_file: bool, is_symlink: bool) -> (r: String)
    ensures
        r@ == kind_name(is_dir, is_file, is_symlink),
{
    if is_dir {
        "directory".to_string()
    } else if is_file {
        "file".to_string()
    } else if is_symlink {
        "symlink".to_string()
    } else {
        "unknown".to_string()
    }
}

/// The type name of a path and the three flags it was decided from, as
/// read from the filesystem.
pub fn get_file_type_info(exists: bool, is_file: bool, is_dir: bool, is_symlink: bool) -> (r: (
    String,
    bool,
    bool,
    bool,
))
    ensures
        r.0@ == kind_info_name(exists, is_dir, is_file, is_symlink),
        r.1 == is_file,
        r.2 == is_dir,
        r.3 == is_symlink,
{
    let file_type = if !exists {
        "not_found".to_string()
    } else {
        file_type_name(is_dir, is_file, is_symlink)
    };
    (file_type, is_file, is_dir, is_symlink)
}

/// What `DateTime::<Utc>::from_timestamp(secs, 0)` followed by `to_rfc3339`
/// gives: `None` where the seconds are out of chrono's range.
pub uninterp spec fn utc_rfc3339(secs: i64) -> Option<Seq<char>>;

/// Relies on chrono's `DateTime::<Utc>::from_timestamp`, which returns `None`
/// for seconds out of range, and on `DateTime::to_rfc3339`, which renders the
/// time; both depend on the seconds alone.
#[verifier::external_body]
fn rfc3339_utc(secs: i64) -> (r: Option<String>)
    ensures
        match r {
            Some(t) => utc_rfc3339(secs) == Some(t@),
            None => utc_rfc3339(secs) is None,
        },
{
    match DateTime::<Utc>::from_timestamp(secs, 0) {
        Some(dt) => Some(dt.to_rfc3339()),
        None => None,
    }
}

/// The modification time as RFC 3339 text, or "Unknown" where there is no
/// time or chrono cannot represent it.
pub open spec fn date_text(modified_secs: Option<u64>) -> Seq<char> {
    match modified_secs {
        Some(secs) => match utc_rfc3339(secs as i64) {
            Some(t) => t,
            None => "Unknown"@,
        },
        None => "Unknown"@,
    }
}

/// Renders a modification time as [`date_text`] describes.
pub fn modification_text(modified_secs: Option<u64>) -> (r: String)
    ensures
        r@ == date_text(modified_secs),
{
    match modified_secs {
        Some(secs) => match rfc3339_utc(secs as i64) {
            Some(t) => t,
            None => "Unknown".to_string(),
        },
        None => "Unknown".to_string(),
    }
}

impl FileInfo {
    /// The record of an entry from one metadata read: its type from the
    /// metadata flags, its size as reported.
    pub fn from_metadata(file_name: String, file_path: String, metadata: &EntryMetadata) -> (r:
        FileInfo)
        ensures
            r@ == file_view(
                file_name@,
                metadata.size,
                date_text(metadata.modified_secs),
                file_path@,
                kind_name(metadata.is_dir, metadata.is_file, metadata.is_symlink),
            ),
    {
        let modification_date = modification_text(metadata.modified_secs);
        let file_type = file_type_name(metadata.is_dir, metadata.is_file, metadata.is_symlink);
        Self::new(file_name, metadata.size, modification_date, file_path, file_type)
    }
}

/// One mounted volume with its space in bytes and as human-readable sizes.
#[derive(Debug)]
pub struct DiskInfo {
    pub name: String,
    pub kind: String,
    pub total_space: u64,
    pub available_space: u64,
    pub used_space: u64,
    pub formatted_total: String,
    pub formatted_available: String,
    pub formatted_used: String,
}

impl DiskInfo {
    /// A volume's description; the used space is what is not available.
    pub fn new(name: String, kind: String, total: u64, available: u64) -> (r: DiskInfo)
        requires
            available <= total,
        ensures
            r.name == name,
            r.kind == kind,
            r.total_space == total,
            r.available_space == available,
            r.used_space == total - available,
            r.formatted_total@ == size_text(total),
            r.formatted_available@ == size_text(available),
            r.formatted_used@ == size_text((total - available) as u64),
    {
        let used = total - available;
        DiskInfo {
            name,
            kind,
            total_space: total,
            available_space: available,
            used_space: used,
            formatted_total: FileInfo::format_size(total),
            formatted_available: FileInfo::format_size(available),
            formatted_used: FileInfo::format_size(used),
        }
    }
}

} // verus!
