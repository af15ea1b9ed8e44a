use vstd::prelude::*;

use crate::codec;
use crate::digest;
use crate::errs::BitcacheError;
use crate::index::{has_key, key_at, spec_insert, EntryView, Metadata, MetadataEntry};
use crate::strutil;

verus! {

/// Everything the publish workflow decides, for the surrounding process to
/// carry out: where the bitstream goes inside the clone, the document to
/// write to the index file, and the commit message.
pub struct PublishPlan {
    /// The digest of the source file: the key published under.
    pub digest: String,
    /// Path of the copied bitstream, relative to the repository root.
    pub dest_rel_path: String,
    /// Filename recorded as the entry's source file.
    pub source_file: String,
    /// Publication time recorded on the entry, RFC 3339.
    pub timestamp: String,
    /// The metadata document to write to the index file.
    pub serialized: String,
    /// The commit message, which embeds the digest.
    pub commit_message: String,
}

/// The source filename recorded on an entry: the filename component of the
/// source path, or "unknown" when the path has none.
pub open spec fn spec_source_name(source_path: Seq<char>) -> Seq<char> {
    if strutil::basename_of(source_path).len() > 0 {
        strutil::basename_of(source_path)
    } else {
        "unknown"@
    }
}

/// The entry a publish records.
pub open spec fn published_entry(
    source_bytes: Seq<u8>,
    source_path: Seq<char>,
    bitstream_path: Seq<char>,
    target_dir: Seq<char>,
    timestamp: Seq<char>,
) -> EntryView {
    EntryView {
        md5: digest::md5_hex_of(source_bytes),
        binary_path: strutil::spec_join(target_dir, strutil::basename_of(bitstream_path)),
        source_file: spec_source_name(source_path),
        timestamp: timestamp,
    }
}

/// The decisions of a publish, for a given publication time: compute the
/// digest of the source bytes, place the bitstream under the target
/// directory by its own filename, record the entry under the digest (last
/// write wins), and hand back the new document and the commit message. A
/// bitstream path with no filename component is rejected and the index is
/// left unchanged.
pub fn plan_publish_at(
    metadata: &mut Metadata,
    source_bytes: &Vec<u8>,
    source_path: &str,
    bitstream_path: &str,
    target_dir: &str,
    timestamp: String,
) -> (r: Result<PublishPlan, BitcacheError>)
    requires
        old(metadata).wf(),
    ensures
        match r {
            Ok(p) => {
                &&& strutil::basename_of(bitstream_path@).len() > 0
                &&& p.digest@ == digest::md5_hex_of(source_bytes@)
                &&& p.dest_rel_path@ == strutil::spec_join(
                    target_dir@,
                    strutil::basename_of(bitstream_path@),
                )
                &&& p.source_file@ == spec_source_name(source_path@)
                &&& p.timestamp@ == timestamp@
                &&& final(metadata)@ == spec_insert(
                    old(metadata)@,
                    published_entry(
                        source_bytes@,
                        source_path@,
                        bitstream_path@,
                        target_dir@,
                        timestamp@,
                    ),
                )
                &&& final(metadata).wf()
                &&& p.serialized@ == codec::ser_doc(final(metadata)@)
                &&& p.commit_message@ == "Add bitstream for source MD5: "@ + p.digest@
            },
            Err(e) => {
                &&& strutil::basename_of(bitstream_path@).len() == 0
                &&& e is InvalidInputError
                &&& e.spec_message() == "Invalid bitstream path"@
                &&& *final(metadata) == *old(metadata)
            },
        },
{
    let bit_name = match strutil::file_name_of(bitstream_path) {
        None => {
            return Err(
                BitcacheError::InvalidInputError(String::from_str("Invalid bitstream path")),
            );
        },
        Some(nm) => nm,
    };
    let md5_hash = digest::compute_md5(source_bytes);
    let source_filename = match strutil::file_name_of(source_path) {
        None => String::from_str("unknown"),
        Some(nm) => nm,
    };
    let dest_rel = strutil::join_path(target_dir, bit_name.as_str());
    let entry = MetadataEntry {
        md5: md5_hash.clone(),
        binary_path: dest_rel.clone(),
        source_file: source_filename.clone(),
        timestamp: timestamp.clone(),
    };
    metadata.insert(entry);
    let serialized = codec::serialize_metadata(metadata);
    let mut commit_message = String::from_str("Add bitstream for source MD5: ");
    commit_message.append(md5_hash.as_str());
    Ok(
        PublishPlan {
            digest: md5_hash,
            dest_rel_path: dest_rel,
            source_file: source_filename,
            timestamp,
            serialized,
            commit_message,
        },
    )
}

/// Relies on chrono: `Utc::now().to_rfc3339()` renders the current UTC
/// time in RFC 3339 form. The value depends on the clock, so nothing is
/// promised of it.
#[verifier::external_body]
fn now_rfc3339() -> String {
    chrono::Utc::now().to_rfc3339()
}

/// The decisions of a publish, stamped with the current UTC time. The
/// recorded timestamp is whatever the clock gave, carried in the plan;
/// everything else is as `plan_publish_at` states.
pub fn plan_publish(
    metadata: &mut Metadata,
    source_bytes: &Vec<u8>,
    source_path: &str,
    bitstream_path: &str,
    target_dir: &str,
) -> (r: Result<PublishPlan, BitcacheError>)
    requires
        old(metadata).wf(),
    ensures
        match r {
            Ok(p) => {
                &&& strutil::basename_of(bitstream_path@).len() > 0
                &&& p.digest@ == digest::md5_hex_of(source_bytes@)
                &&& p.dest_rel_path@ == strutil::spec_join(
                    target_dir@,
                    strutil::basename_of(bitstream_path@),
                )
                &&& p.source_file@ == spec_source_name(source_path@)
                &&& final(metadata)@ == spec_insert(
                    old(metadata)@,
                    published_entry(
                        source_bytes@,
                        source_path@,
                        bitstream_path@,
                        target_dir@,
                        p.timestamp@,
                    ),
                )
                &&& final(metadata).wf()
                &&& p.serialized@ == codec::ser_doc(final(metadata)@)
                &&& p.commit_message@ == "Add bitstream for source MD5: "@ + p.digest@
            },
            Err(e) => {
                &&& strutil::basename_of(bitstream_path@).len() == 0
                &&& e is InvalidInputError
                &&& *final(metadata) == *old(metadata)
            },
        },
{
    let timestamp = now_rfc3339();
    plan_publish_at(metadata, source_bytes, source_path, bitstream_path, target_dir, timestamp)
}

/// What the get workflow found for a digest: where the stored binary lies
/// in the clone, the filename to copy it out under, and the entry's
/// recorded provenance.
pub struct RetrievePlan {
    /// Path of the stored binary, relative to the repository root.
    pub binary_rel_path: String,
    /// Filename to copy the binary out under: the filename component of
    /// its stored path.
    pub output_file_name: String,
    /// The entry's recorded source filename.
    pub source_file: String,
    /// The entry's digest key.
    pub md5: String,
    /// The entry's recorded publication time.
    pub timestamp: String,
}

/// The decisions of a get: look the digest up and name the file to copy
/// out. An unknown digest is a `NotFoundError`; a recorded path with no
/// filename component is an `InvalidInputError`.
pub fn plan_get(metadata: &Metadata, md5: &str) -> (r: Result<RetrievePlan, BitcacheError>)
    requires
        metadata.wf(),
    ensures
        match r {
            Ok(p) => {
                &&& has_key(metadata@, md5@)
                &&& p.binary_rel_path@ == metadata@[key_at(metadata@, md5@)].binary_path
                &&& p.source_file@ == metadata@[key_at(metadata@, md5@)].source_file
                &&& p.md5@ == metadata@[key_at(metadata@, md5@)].md5
                &&& p.timestamp@ == metadata@[key_at(metadata@, md5@)].timestamp
                &&& strutil::basename_of(p.binary_rel_path@).len() > 0
                &&& p.output_file_name@ == strutil::basename_of(p.binary_rel_path@)
            },
            Err(e) => {
                &&& (e is NotFoundError || e is InvalidInputError)
                &&& (e is NotFoundError <==> !has_key(metadata@, md5@))
                &&& (e is InvalidInputError ==> has_key(metadata@, md5@)
                    && strutil::basename_of(
                    metadata@[key_at(metadata@, md5@)].binary_path,
                ).len() == 0)
            },
        },
{
    let entry = match metadata.get(md5) {
        None => {
            let mut msg = String::from_str("No binary found for MD5: ");
            msg.append(md5);
            return Err(BitcacheError::NotFoundError(msg));
        },
        Some(e) => e,
    };
    let fname = match strutil::file_name_of(entry.binary_path.as_str()) {
        None => {
            return Err(BitcacheError::InvalidInputError(String::from_str("Invalid binary path")));
        },
        Some(f) => f,
    };
    Ok(
        RetrievePlan {
            binary_rel_path: entry.binary_path.clone(),
            output_file_name: fname,
            source_file: entry.source_file.clone(),
            md5: entry.md5.clone(),
            timestamp: entry.timestamp.clone(),
        },
    )
}

/// The decision after the clone is inspected for the stored binary: the
/// file named by the entry must exist on disk, since the index and the
/// filesystem can diverge when a file was deleted out-of-band. A missing
/// binary is a `NotFoundError` naming its stored path.
pub fn classify_binary_presence(exists: bool, binary_rel_path: &str) -> (r: Result<
    (),
    BitcacheError,
>)
    ensures
        exists <==> r is Ok,
        !exists ==> (r matches Err(e) && e is NotFoundError && e.spec_message()
            == "Binary file not found: "@ + binary_rel_path@),
{
    if exists {
        Ok(())
    } else {
        let mut msg = String::from_str("Binary file not found: ");
        msg.append(binary_rel_path);
        Err(BitcacheError::NotFoundError(msg))
    }
}

/// Load the index at the start of a publish: an absent metadata file means
/// an empty index, and present content must parse.
pub fn load_index_for_publish(content: Option<&str>) -> (r: Result<Metadata, BitcacheError>)
    ensures
        match r {
            Ok(m) => {
                &&& m.wf()
                &&& match content {
                    None => m@ == Seq::<EntryView>::empty(),
                    Some(c) => codec::doc_value(c@) == Some(m@),
                }
            },
            Err(e) => {
                &&& e is ParseError
                &&& content matches Some(c) && codec::doc_value(c@) is None
            },
        },
{
    match content {
        None => Ok(Metadata::new()),
        Some(c) => codec::parse_metadata(c),
    }
}

/// Load the index at the start of a get: an absent metadata file is a
/// `NotFoundError`, and present content must parse.
pub fn load_index_for_get(content: Option<&str>) -> (r: Result<Metadata, BitcacheError>)
    ensures
        match r {
            Ok(m) => {
                &&& m.wf()
                &&& content matches Some(c) && codec::doc_value(c@) == Some(m@)
            },
            Err(e) => match content {
                None => e is NotFoundError,
                Some(c) => e is ParseError && codec::doc_value(c@) is None,
            },
        },
{
    match content {
        None => Err(
            BitcacheError::NotFoundError(
                String::from_str("Metadata file not found in repository"),
            ),
        ),
        Some(c) => codec::parse_metadata(c),
    }
}

} // verus!
