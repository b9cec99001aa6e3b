//! What the knowledge library records when a reflection is stored.
use vstd::prelude::*;
use crate::knowledge::document::Document;
use crate::knowledge::embedding::vector::metadata::copy_strings;
use crate::knowledge::metadata::DocumentMetadata;
use crate::text::{owned, push_char, push_decimal, push_str, spec_decimal, str_views};
use crate::time::Timestamp;
use vstd::string::StringSliceAdditionalSpecFns;
use vstd::utf8::encode_utf8;

verus! {

/// The instant `t` in nanoseconds since the Unix epoch, when that fits an `i64`
/// (computed as chrono's `timestamp_nanos_opt` does, so that instants just
/// before the epoch do not overflow on the way).
pub open spec fn timestamp_nanos(t: Timestamp) -> Option<int> {
    let secs: int = if t.secs < 0 { t.secs + 1 } else { t.secs as int };
    let sub: int = if t.secs < 0 { t.nanos - 1_000_000_000 } else { t.nanos as int };
    let whole = secs * 1_000_000_000;
    if i64::MIN <= whole <= i64::MAX && i64::MIN <= whole + sub <= i64::MAX {
        Some(whole + sub)
    } else {
        None
    }
}

/// The stamp in a reflection's identifier: the instant in nanoseconds, or, when
/// that does not fit, the whole seconds times a billion.
pub open spec fn reflection_stamp(t: Timestamp) -> int {
    match timestamp_nanos(t) {
        Some(n) => n,
        None => t.secs * 1_000_000_000,
    }
}

/// Decimal text of an integer, with a minus sign when it is negative.
pub open spec fn spec_signed_decimal(n: int) -> Seq<char> {
    if n < 0 {
        "-"@ + spec_decimal((-n) as nat)
    } else {
        spec_decimal(n as nat)
    }
}

/// The identifier of a reflection titled `title` stored at `now`.
pub open spec fn reflection_id(title: Seq<char>, now: Timestamp) -> Seq<char> {
    "store:"@ + title + ":"@ + spec_signed_decimal(reflection_stamp(now))
}

fn push_signed_decimal(s: &mut String, n: i64)
    ensures
        final(s)@ == old(s)@ + spec_signed_decimal(n as int),
{
    if n < 0 {
        push_char(s, '-');
        let m: u64 = if n == i64::MIN {
            9_223_372_036_854_775_808u64
        } else {
            (-n) as u64
        };
        push_decimal(s, m);
        proof {
            assert(m as int == -(n as int));
            reveal_strlit("-");
            assert(s@ =~= old(s)@ + spec_signed_decimal(n as int));
        }
    } else {
        push_decimal(s, n as u64);
    }
}

/// The stamp of a reflection's identifier, computed.
fn stamp_of(now: Timestamp) -> (r: i64)
    requires
        timestamp_nanos(now) is Some || i64::MIN <= now.secs * 1_000_000_000 <= i64::MAX,
    ensures
        r == reflection_stamp(now),
{
    let (secs, sub): (i64, i64) = if now.secs < 0 {
        (now.secs + 1, now.nanos as i64 - 1_000_000_000)
    } else {
        (now.secs, now.nanos as i64)
    };
    match secs.checked_mul(1_000_000_000) {
        Some(whole) => match whole.checked_add(sub) {
            Some(n) => n,
            None => now.secs * 1_000_000_000,
        },
        None => now.secs * 1_000_000_000,
    }
}

/// The document under which a reflection titled `title` with `content` and
/// `tags` is stored at `now`: identified (and hashed) by [`reflection_id`],
/// with no path, in language `text`, from source `reflection`, of category
/// `reflection`, difficulty `intermediate` and version `1.0`, sourced `local` in
/// its metadata, sized by the content's UTF-8 bytes, created and updated at `now`.
pub fn reflection_document(title: &str, content: &str, tags: &Vec<String>, now: Timestamp) -> (r: Document)
    requires
        timestamp_nanos(now) is Some || i64::MIN <= now.secs * 1_000_000_000 <= i64::MAX,
    ensures
        r@.id == reflection_id(title@, now),
        r@.path == Seq::<char>::empty(),
        r@.title == title@,
        r@.language == "text"@,
        str_views(r@.tags) == str_views(tags@),
        r@.source == "reflection"@,
        r@.content == content@,
        r@.metadata.title@ == title@,
        r@.metadata.description is None,
        r@.metadata.language@ == "text"@,
        r@.metadata.category@ == "reflection"@,
        r@.metadata.topic is None,
        str_views(r@.metadata.tags@) == str_views(tags@),
        r@.metadata.difficulty@ == "intermediate"@,
        r@.metadata.version@ == "1.0"@,
        r@.metadata.source@ == "local"@,
        r@.metadata.hash@ == reflection_id(title@, now),
        r@.metadata.size == encode_utf8(content@).len(),
        r@.metadata.created_at == now,
        r@.metadata.updated_at == now,
{
    let mut id = owned("store:");
    push_str(&mut id, title);
    push_str(&mut id, ":");
    push_signed_decimal(&mut id, stamp_of(now));
    let hash = owned(id.as_str());
    let size = content.as_bytes().len() as u64;
    let metadata = DocumentMetadata::new(
        owned(title),
        None,
        owned("text"),
        owned("reflection"),
        None,
        copy_strings(tags),
        owned("intermediate"),
        owned("1.0"),
        owned("local"),
        hash,
        size,
        now,
        now,
    );
    Document::new(
        id,
        String::new(),
        owned(title),
        owned("text"),
        copy_strings(tags),
        owned("reflection"),
        metadata,
        owned(content),
    )
}

} // verus!
