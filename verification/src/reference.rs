//! References from one object to another, written as `object_type:object_id`.

use vstd::prelude::*;
use vstd::string::*;
use crate::link::Link;
use crate::property::PropertyModel;
use crate::store::fresh_identifier;
use crate::text::{chars_of, count_char, first_index, owned, scan_for, substring};

verus! {

/// The home of the functions on references.
#[derive(Debug, Clone, Copy)]
pub struct ReferenceManager;

/// What becomes of references when the object they point to is deleted.
#[derive(Debug, Clone, Copy, PartialEq, Eq, Structural)]
pub enum CascadeDeleteBehavior {
    /// The objects that refer to it are deleted too.
    Cascade,
    /// The references are set to null.
    SetNull,
    /// The deletion is refused while references exist.
    Restrict,
    NoAction,
}

/// The message for a reference to an object that does not exist.
pub open spec fn missing_text(object_type: Seq<char>, object_id: Seq<char>) -> Seq<char> {
    "Referenced object '"@ + object_id + "' of type '"@ + object_type + "' does not exist"@
}

/// The message for a reference without a type.
pub open spec fn untyped_text(reference: Seq<char>) -> Seq<char> {
    "Object reference '"@ + reference + "' must be in format 'object_type:object_id'"@
}

/// The message for a reference with more than one colon.
pub open spec fn malformed_text(reference: Seq<char>) -> Seq<char> {
    "Invalid object reference format: "@ + reference
}

/// The type that a link gets where none is given: the two object types, `_to_` between.
pub open spec fn default_link_type(source_type: Seq<char>, target_type: Seq<char>) -> Seq<char> {
    source_type + "_to_"@ + target_type
}

/// A reference written out: the type, a colon, the id.
pub open spec fn reference_text(object_type: Seq<char>, object_id: Seq<char>) -> Seq<char> {
    object_type + ":"@ + object_id
}

fn make_reference(object_type: &str, object_id: &str) -> (out: String)
    ensures
        out@ == reference_text(object_type@, object_id@),
{
    let mut out = owned(object_type);
    out.append(":");
    out.append(object_id);
    out
}

impl ReferenceManager {
    /// Asks `checker` whether the object exists, and says so in the error where it
    /// does not.
    pub fn validate_reference_exists<F: Fn(&str, &str) -> bool>(
        object_type: &str,
        object_id: &str,
        checker: F,
    ) -> (out: Result<(), String>)
        requires
            call_requires(checker, (object_type, object_id)),
        ensures
            match out {
                Ok(_) => call_ensures(checker, (object_type, object_id), true),
                Err(message) => call_ensures(checker, (object_type, object_id), false)
                    && message@ == missing_text(object_type@, object_id@),
            },
    {
        if checker(object_type, object_id) {
            Ok(())
        } else {
            let mut message = owned("Referenced object '");
            message.append(object_id);
            message.append("' of type '");
            message.append(object_type);
            message.append("' does not exist");
            Err(message)
        }
    }

    /// Takes a reference apart into the object type and the object id.
    ///
    /// A reference has exactly one colon: what stands before it is the type, what
    /// stands after it the id. Without a colon the error says that the type is missing,
    /// with more than one that the format is invalid.
    pub fn parse_reference(ref_str: &str) -> (out: Result<(String, String), String>)
        ensures
            count_char(ref_str@, ':') == 1 ==> out is Ok && out->Ok_0.0@ == ref_str@.take(
                first_index(ref_str@, ':'),
            ) && out->Ok_0.1@ == ref_str@.skip(first_index(ref_str@, ':') + 1),
            count_char(ref_str@, ':') == 0 ==> out is Err && out->Err_0@ == untyped_text(
                ref_str@,
            ),
            count_char(ref_str@, ':') >= 2 ==> out is Err && out->Err_0@ == malformed_text(
                ref_str@,
            ),
    {
        let chars = chars_of(ref_str);
        let (count, at) = scan_for(&chars, ':');
        if count == 1 {
            proof {
                crate::text::lemma_first_index(chars@, ':');
            }
            let object_type = substring(&chars, 0, at);
            let object_id = substring(&chars, at + 1, chars.len());
            proof {
                assert(object_type@ =~= ref_str@.take(at as int));
                assert(object_id@ =~= ref_str@.skip(at + 1));
            }
            Ok((object_type, object_id))
        } else if count == 0 {
            let mut message = owned("Object reference '");
            message.append(ref_str);
            message.append("' must be in format 'object_type:object_id'");
            Err(message)
        } else {
            let mut message = owned("Invalid object reference format: ");
            message.append(ref_str);
            Err(message)
        }
    }

    /// The link that follows from setting a reference on an object: from the source
    /// object to the object referred to, of the given link type, or of the type named
    /// after the two object types where none is given. The link gets a fresh id.
    ///
    /// The error is that of [`ReferenceManager::parse_reference`] on the reference.
    pub fn create_link_for_reference(
        source_object_type: &str,
        source_object_id: &str,
        reference_property: &str,
        target_reference: &str,
        link_type_id: Option<&str>,
    ) -> (out: Result<Link, String>)
        ensures
            count_char(target_reference@, ':') == 1 ==> out is Ok && ({
                let at = first_index(target_reference@, ':');
                let link = out->Ok_0;
                &&& link.id@.len() == 36
                &&& link.link_type_id@ == (match link_type_id {
                    Some(given) => given@,
                    None => default_link_type(source_object_type@, target_reference@.take(at)),
                })
                &&& link.source_id@ == reference_text(source_object_type@, source_object_id@)
                &&& link.target_id@ == reference_text(
                    target_reference@.take(at),
                    target_reference@.skip(at + 1),
                )
                &&& link.properties@ == Seq::<(Seq<char>, PropertyModel)>::empty()
            }),
            count_char(target_reference@, ':') == 0 ==> out is Err && out->Err_0@
                == untyped_text(target_reference@),
            count_char(target_reference@, ':') >= 2 ==> out is Err && out->Err_0@
                == malformed_text(target_reference@),
    {
        let (target_type, target_id) = match ReferenceManager::parse_reference(target_reference) {
            Ok(parts) => parts,
            Err(message) => {
                return Err(message);
            },
        };
        let link_type = match link_type_id {
            Some(given) => owned(given),
            None => {
                let mut name = owned(source_object_type);
                name.append("_to_");
                name.append(target_type.as_str());
                name
            },
        };
        Ok(
            Link::new(
                fresh_identifier(),
                link_type,
                make_reference(source_object_type, source_object_id),
                make_reference(target_type.as_str(), target_id.as_str()),
            ),
        )
    }

    /// The objects that refer to the given object. No store is asked yet, so the answer
    /// is that none does.
    pub fn find_reverse_references<F: Fn(&str, &str, &str) -> Vec<String>>(
        target_object_type: &str,
        target_object_id: &str,
        reference_checker: F,
    ) -> (found: Vec<(String, String, String)>)
        ensures
            found@.len() == 0,
    {
        Vec::new()
    }
}

} // verus!
