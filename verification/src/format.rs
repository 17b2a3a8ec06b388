//! Archive formats that an upload may arrive in, and the names under which
//! uploads and backups are kept while a deployment runs.

use vstd::prelude::*;
use vstd::string::StringExecFns;
use crate::text::same_text;

verus! {

/// The closed set of archive formats the codec can dispatch on.
#[derive(Clone, Copy, Debug, PartialEq, Eq, Structural)]
pub enum Format {
    TarGz,
    Zip,
    Rar,
}

impl Format {
    /// The file extension used for a stored archive of this format.
    pub open spec fn extension_spec(self) -> Seq<char> {
        match self {
            Format::TarGz => "tar.gz"@,
            Format::Zip => "zip"@,
            Format::Rar => "rar"@,
        }
    }

    /// Returns the file extension used for a stored archive of this format.
    pub fn extension(self) -> (ext: &'static str)
        ensures
            ext@ == self.extension_spec(),
    {
        match self {
            Format::TarGz => "tar.gz",
            Format::Zip => "zip",
            Format::Rar => "rar",
        }
    }

    /// A codec reads archives of this format. None reads RAR.
    pub open spec fn readable_spec(self) -> bool {
        self != Format::Rar
    }

    /// Whether a codec reads archives of this format.
    pub fn readable(self) -> (ok: bool)
        ensures
            ok == self.readable_spec(),
    {
        match self {
            Format::TarGz => true,
            Format::Zip => true,
            Format::Rar => false,
        }
    }

    /// The media type under which an archive of this format is uploaded.
    pub open spec fn media_type_spec(self) -> Seq<char> {
        match self {
            Format::TarGz => "application/gzip"@,
            Format::Zip => "application/zip"@,
            Format::Rar => "application/vnd.rar"@,
        }
    }

    /// Returns the media type under which an archive of this format is uploaded.
    pub fn media_type(self) -> (media_type: &'static str)
        ensures
            media_type@ == self.media_type_spec(),
    {
        match self {
            Format::TarGz => "application/gzip",
            Format::Zip => "application/zip",
            Format::Rar => "application/vnd.rar",
        }
    }

    /// The format a declared media type selects, if it is a recognised one.
    pub open spec fn from_media_type_spec(media_type: Seq<char>) -> Option<Format> {
        if media_type == "application/gzip"@ {
            Some(Format::TarGz)
        } else if media_type == "application/zip"@ {
            Some(Format::Zip)
        } else if media_type == "application/vnd.rar"@ {
            Some(Format::Rar)
        } else {
            None
        }
    }

    /// Maps the declared media type of an upload to its format. The bytes of
    /// the upload play no part; an unrecognised media type gives `None`.
    pub fn from_media_type(media_type: &str) -> (format: Option<Format>)
        ensures
            format == Format::from_media_type_spec(media_type@),
    {
        if same_text(media_type, "application/gzip") {
            Some(Format::TarGz)
        } else if same_text(media_type, "application/zip") {
            Some(Format::Zip)
        } else if same_text(media_type, "application/vnd.rar") {
            Some(Format::Rar)
        } else {
            None
        }
    }
}

/// Every format is found again from its own media type.
pub proof fn lemma_media_type_round_trip(format: Format)
    ensures
        Format::from_media_type_spec(format.media_type_spec()) == Some(format),
{
    reveal_strlit("application/gzip");
    reveal_strlit("application/zip");
    reveal_strlit("application/vnd.rar");
    assert("application/gzip"@.len() == 16);
    assert("application/zip"@.len() == 15);
    assert("application/vnd.rar"@.len() == 19);
}

/// The name of the temporary file that holds an upload: `temp_<fmt>-<id>.<fmt>`.
pub open spec fn upload_name_spec(format: Format, id: Seq<char>) -> Seq<char> {
    "temp_"@ + format.extension_spec() + "-"@ + id + "."@ + format.extension_spec()
}

/// Builds the name of the temporary file that holds an upload.
pub fn upload_name(format: Format, id: &str) -> (name: String)
    ensures
        name@ == upload_name_spec(format, id@),
{
    let mut name = String::from_str("temp_");
    name.append(format.extension());
    name.append("-");
    name.append(id);
    name.append(".");
    name.append(format.extension());
    name
}

/// The name of the file that holds a backup snapshot: `backup-<id>.tar.gz`.
pub open spec fn backup_name_spec(id: Seq<char>) -> Seq<char> {
    "backup-"@ + id + ".tar.gz"@
}

/// Builds the name of the file that holds a backup snapshot.
pub fn backup_name(id: &str) -> (name: String)
    ensures
        name@ == backup_name_spec(id@),
{
    let mut name = String::from_str("backup-");
    name.append(id);
    name.append(".tar.gz");
    name
}

} // verus!
