//! The entry builder: dispatches one doc comment's ordered tag sequence into
//! the fields of a function entry, and collects one diagnostic per tag that
//! functions do not accept instead of stopping at the first misuse.

use vstd::prelude::*;

use crate::diagnostic::{Diagnostic, Diagnostics};
use crate::doc_comment::DocComment;
use crate::realm::{Realm, RealmSet};
use crate::tags::{CustomTag, DeprecatedTag, ErrorTag, ParamTag, ReturnTag, Tag};

verus! {

broadcast use vstd::set::group_set_axioms;

/// Whether a tag belongs to the accept-set of function and method entries.
/// Every other entry kind would supply its own accept-set to the same
/// dispatch algorithm.
pub open spec fn function_accepts(tag: Tag) -> bool {
    match tag {
        Tag::Param(_) => true,
        Tag::Return(_) => true,
        Tag::Deprecated(_) => true,
        Tag::Since(_) => true,
        Tag::Custom(_) => true,
        Tag::Error(_) => true,
        Tag::Private => true,
        Tag::Unreleased => true,
        Tag::Yields => true,
        Tag::Ignore => true,
        Tag::Server => true,
        Tag::Client => true,
        Tag::Within(_) => false,
        Tag::Field(_) => false,
        Tag::ReadOnly => false,
    }
}

/// The parameter payloads of a tag sequence, in input order.
pub open spec fn params_of(tags: Seq<Tag>) -> Seq<ParamTag>
    decreases tags.len(),
{
    if tags.len() == 0 {
        Seq::empty()
    } else {
        let rest = params_of(tags.drop_last());
        match tags.last() {
            Tag::Param(p) => rest.push(p),
            _ => rest,
        }
    }
}

/// The return payloads of a tag sequence, in input order.
pub open spec fn returns_of(tags: Seq<Tag>) -> Seq<ReturnTag>
    decreases tags.len(),
{
    if tags.len() == 0 {
        Seq::empty()
    } else {
        let rest = returns_of(tags.drop_last());
        match tags.last() {
            Tag::Return(r) => rest.push(r),
            _ => rest,
        }
    }
}

/// The custom-tag payloads of a tag sequence, in input order.
pub open spec fn custom_tags_of(tags: Seq<Tag>) -> Seq<CustomTag>
    decreases tags.len(),
{
    if tags.len() == 0 {
        Seq::empty()
    } else {
        let rest = custom_tags_of(tags.drop_last());
        match tags.last() {
            Tag::Custom(c) => rest.push(c),
            _ => rest,
        }
    }
}

/// The error payloads of a tag sequence, in input order.
pub open spec fn errors_of(tags: Seq<Tag>) -> Seq<ErrorTag>
    decreases tags.len(),
{
    if tags.len() == 0 {
        Seq::empty()
    } else {
        let rest = errors_of(tags.drop_last());
        match tags.last() {
            Tag::Error(e) => rest.push(e),
            _ => rest,
        }
    }
}

/// The version of the last since tag, if any: the last occurrence wins.
pub open spec fn since_of(tags: Seq<Tag>) -> Option<String>
    decreases tags.len(),
{
    if tags.len() == 0 {
        None
    } else {
        match tags.last() {
            Tag::Since(s) => Some(s.version),
            _ => since_of(tags.drop_last()),
        }
    }
}

/// The payload of the last deprecation tag, if any: the last occurrence wins.
pub open spec fn deprecated_of(tags: Seq<Tag>) -> Option<DeprecatedTag>
    decreases tags.len(),
{
    if tags.len() == 0 {
        None
    } else {
        match tags.last() {
            Tag::Deprecated(d) => Some(d),
            _ => deprecated_of(tags.drop_last()),
        }
    }
}

/// Whether a private marker occurs anywhere in the sequence.
pub open spec fn has_private(tags: Seq<Tag>) -> bool
    decreases tags.len(),
{
    if tags.len() == 0 {
        false
    } else {
        tags.last() is Private || has_private(tags.drop_last())
    }
}

/// Whether an unreleased marker occurs anywhere in the sequence.
pub open spec fn has_unreleased(tags: Seq<Tag>) -> bool
    decreases tags.len(),
{
    if tags.len() == 0 {
        false
    } else {
        tags.last() is Unreleased || has_unreleased(tags.drop_last())
    }
}

/// Whether a yields marker occurs anywhere in the sequence.
pub open spec fn has_yields(tags: Seq<Tag>) -> bool
    decreases tags.len(),
{
    if tags.len() == 0 {
        false
    } else {
        tags.last() is Yields || has_yields(tags.drop_last())
    }
}

/// Whether an ignore marker occurs anywhere in the sequence.
pub open spec fn has_ignore(tags: Seq<Tag>) -> bool
    decreases tags.len(),
{
    if tags.len() == 0 {
        false
    } else {
        tags.last() is Ignore || has_ignore(tags.drop_last())
    }
}

/// The set of realm markers that occur in the sequence.
pub open spec fn realm_of(tags: Seq<Tag>) -> Set<Realm>
    decreases tags.len(),
{
    if tags.len() == 0 {
        Set::empty()
    } else {
        let rest = realm_of(tags.drop_last());
        match tags.last() {
            Tag::Server => rest.insert(Realm::Server),
            Tag::Client => rest.insert(Realm::Client),
            _ => rest,
        }
    }
}

/// The tags outside the function accept-set, in input order.
pub open spec fn rejected_of(tags: Seq<Tag>) -> Seq<Tag>
    decreases tags.len(),
{
    if tags.len() == 0 {
        Seq::empty()
    } else {
        let rest = rejected_of(tags.drop_last());
        if function_accepts(tags.last()) {
            rest
        } else {
            rest.push(tags.last())
        }
    }
}

/// The message attached to every diagnostic for a tag that function entries
/// do not accept.
pub open spec fn unused_tag_message() -> Seq<char> {
    "This tag is unused by function doc entries."@
}

/// How each model function grows when one tag is appended: the field the tag
/// lands in gains exactly that payload, every other field is untouched, and
/// a tag outside the accept-set lands only in the rejected sequence.
pub proof fn lemma_model_push(s: Seq<Tag>, t: Tag)
    ensures
        params_of(s.push(t)) == (match t {
            Tag::Param(p) => params_of(s).push(p),
            _ => params_of(s),
        }),
        returns_of(s.push(t)) == (match t {
            Tag::Return(r) => returns_of(s).push(r),
            _ => returns_of(s),
        }),
        custom_tags_of(s.push(t)) == (match t {
            Tag::Custom(c) => custom_tags_of(s).push(c),
            _ => custom_tags_of(s),
        }),
        errors_of(s.push(t)) == (match t {
            Tag::Error(e) => errors_of(s).push(e),
            _ => errors_of(s),
        }),
        since_of(s.push(t)) == (match t {
            Tag::Since(v) => Some(v.version),
            _ => since_of(s),
        }),
        deprecated_of(s.push(t)) == (match t {
            Tag::Deprecated(d) => Some(d),
            _ => deprecated_of(s),
        }),
        has_private(s.push(t)) == (has_private(s) || t is Private),
        has_unreleased(s.push(t)) == (has_unreleased(s) || t is Unreleased),
        has_yields(s.push(t)) == (has_yields(s) || t is Yields),
        has_ignore(s.push(t)) == (has_ignore(s) || t is Ignore),
        realm_of(s.push(t)) == (match t {
            Tag::Server => realm_of(s).insert(Realm::Server),
            Tag::Client => realm_of(s).insert(Realm::Client),
            _ => realm_of(s),
        }),
        rejected_of(s.push(t)) == (if function_accepts(t) {
            rejected_of(s)
        } else {
            rejected_of(s).push(t)
        }),
{
    assert(s.push(t).drop_last() =~= s);
    assert(s.push(t).last() == t);
}

/// Law: a parse succeeds exactly on the tag sequences drawn entirely from
/// the function accept-set, however many valid tags there are and in
/// whatever order.
pub proof fn lemma_accepted_iff_no_rejections(tags: Seq<Tag>)
    ensures
        rejected_of(tags).len() == 0 <==> (forall|i: int|
            0 <= i < tags.len() ==> function_accepts(#[trigger] tags[i])),
    decreases tags.len(),
{
    if tags.len() > 0 {
        lemma_accepted_iff_no_rejections(tags.drop_last());
        assert(forall|i: int|
            0 <= i < tags.len() - 1 ==> #[trigger] tags[i] == tags.drop_last()[i]);
        assert(tags.last() == tags[tags.len() - 1]);
    }
}

/// Law: the rejected sequence is exactly the input tags outside the
/// accept-set, in input order; so a sequence with k such tags, interleaved
/// with any number of accepted ones, yields exactly k diagnostics, each
/// referencing one of those k tags.
pub proof fn lemma_rejected_are_the_offending_tags(tags: Seq<Tag>)
    ensures
        rejected_of(tags) == tags.filter(|t: Tag| !function_accepts(t)),
        forall|i: int|
            0 <= i < rejected_of(tags).len() ==> !function_accepts(
                #[trigger] rejected_of(tags)[i],
            ),
        forall|i: int|
            0 <= i < rejected_of(tags).len() ==> tags.contains(#[trigger] rejected_of(tags)[i]),
    decreases tags.len(),
{
    reveal(Seq::filter);
    if tags.len() > 0 {
        lemma_rejected_are_the_offending_tags(tags.drop_last());
        assert forall|i: int| 0 <= i < rejected_of(tags).len() implies tags.contains(
            #[trigger] rejected_of(tags)[i],
        ) by {
            if i < rejected_of(tags.drop_last()).len() {
                let j = choose|j: int|
                    0 <= j < tags.drop_last().len() && tags.drop_last()[j] == rejected_of(
                        tags.drop_last(),
                    )[i];
                assert(tags[j] == rejected_of(tags)[i]);
            } else {
                assert(tags[tags.len() - 1] == rejected_of(tags)[i]);
            }
        }
    }
}

/// Law: the realm set only ever holds the two markers, so it is finite, has
/// at most two elements, and — being a set — no duplicates; a marker is in
/// it exactly when the matching tag occurs somewhere in the sequence.
pub proof fn lemma_realm_set_bounded(tags: Seq<Tag>)
    ensures
        realm_of(tags).finite(),
        realm_of(tags).subset_of(set![Realm::Server, Realm::Client]),
        realm_of(tags).len() <= 2,
        realm_of(tags).contains(Realm::Server) <==> (exists|i: int|
            0 <= i < tags.len() && #[trigger] tags[i] is Server),
        realm_of(tags).contains(Realm::Client) <==> (exists|i: int|
            0 <= i < tags.len() && #[trigger] tags[i] is Client),
    decreases tags.len(),
{
    if tags.len() == 0 {
        assert(realm_of(tags).len() <= 2);
    } else {
        lemma_realm_set_bounded(tags.drop_last());
        assert(forall|i: int|
            0 <= i < tags.len() - 1 ==> #[trigger] tags[i] == tags.drop_last()[i]);
        assert(tags.last() == tags[tags.len() - 1]);
        if realm_of(tags.drop_last()).contains(Realm::Server) {
            let j = choose|j: int| 0 <= j < tags.len() - 1 && #[trigger] tags.drop_last()[j]
                is Server;
            assert(tags[j] is Server);
        }
        if realm_of(tags.drop_last()).contains(Realm::Client) {
            let j = choose|j: int| 0 <= j < tags.len() - 1 && #[trigger] tags.drop_last()[j]
                is Client;
            assert(tags[j] is Client);
        }
        vstd::set_lib::lemma_len_subset(realm_of(tags), set![Realm::Server, Realm::Client]);
        assert(set![Realm::Server, Realm::Client].len() == 2);
    }
}

/// Law: the marker flags record presence only — a flag is set exactly when
/// its marker occurs somewhere in the sequence, so repeating a marker is a
/// no-op and never a diagnostic.
pub proof fn lemma_flags_record_presence(tags: Seq<Tag>)
    ensures
        has_private(tags) <==> (exists|i: int|
            0 <= i < tags.len() && #[trigger] tags[i] is Private),
        has_unreleased(tags) <==> (exists|i: int|
            0 <= i < tags.len() && #[trigger] tags[i] is Unreleased),
        has_yields(tags) <==> (exists|i: int| 0 <= i < tags.len() && #[trigger] tags[i] is Yields),
        has_ignore(tags) <==> (exists|i: int| 0 <= i < tags.len() && #[trigger] tags[i] is Ignore),
    decreases tags.len(),
{
    if tags.len() > 0 {
        lemma_flags_record_presence(tags.drop_last());
        assert(forall|i: int|
            0 <= i < tags.len() - 1 ==> #[trigger] tags[i] == tags.drop_last()[i]);
        assert(tags.last() == tags[tags.len() - 1]);
        if has_private(tags.drop_last()) {
            let j = choose|j: int| 0 <= j < tags.len() - 1 && #[trigger] tags.drop_last()[j]
                is Private;
            assert(tags[j] is Private);
        }
        if has_unreleased(tags.drop_last()) {
            let j = choose|j: int| 0 <= j < tags.len() - 1 && #[trigger] tags.drop_last()[j]
                is Unreleased;
            assert(tags[j] is Unreleased);
        }
        if has_yields(tags.drop_last()) {
            let j = choose|j: int| 0 <= j < tags.len() - 1 && #[trigger] tags.drop_last()[j]
                is Yields;
            assert(tags[j] is Yields);
        }
        if has_ignore(tags.drop_last()) {
            let j = choose|j: int| 0 <= j < tags.len() - 1 && #[trigger] tags.drop_last()[j]
                is Ignore;
            assert(tags[j] is Ignore);
        }
    }
}

/// Law: the singular fields keep the last occurrence — appending a since or
/// deprecation tag overwrites the field with that tag's payload, with no
/// diagnostic, and appending any other tag leaves it untouched.
pub proof fn lemma_singular_last_occurrence_wins(tags: Seq<Tag>, t: Tag)
    ensures
        (t matches Tag::Since(s) ==> since_of(tags.push(t)) == Some(s.version)),
        !(t is Since) ==> since_of(tags.push(t)) == since_of(tags),
        (t matches Tag::Deprecated(d) ==> deprecated_of(tags.push(t)) == Some(d)),
        !(t is Deprecated) ==> deprecated_of(tags.push(t)) == deprecated_of(tags),
{
    lemma_model_push(tags, t);
}

/// Separates functions (called with a dot) from methods (called with a colon).
#[derive(Debug, Clone, Copy, PartialEq, Eq, Structural)]
pub enum FunctionType {
    Method,
    Static,
}

/// The base fields an entry is built from, plus the ordered tag sequence of
/// its doc comment. `within` is resolved upstream: building an entry without
/// it is a precondition violation, not a diagnostic.
#[derive(Debug, Clone, PartialEq)]
pub struct DocEntryParseArguments<'a> {
    pub name: String,
    pub desc: String,
    pub within: Option<String>,
    pub tags: Vec<Tag>,
    pub source: &'a DocComment,
}

/// A finished entry for a function or method: base fields, the ordered
/// payload collections, the realm set, the presence flags, and the singular
/// fields, built once from a fixed tag sequence and immutable thereafter.
#[derive(Debug, Clone, PartialEq)]
pub struct FunctionDocEntry<'a> {
    pub name: String,
    pub desc: String,
    pub within: String,
    pub params: Vec<ParamTag>,
    pub returns: Vec<ReturnTag>,
    pub tags: Vec<CustomTag>,
    pub errors: Vec<ErrorTag>,
    pub function_type: FunctionType,
    pub realm: RealmSet,
    pub private: bool,
    pub unreleased: bool,
    pub yields: bool,
    pub ignore: bool,
    pub since: Option<String>,
    pub deprecated: Option<DeprecatedTag>,
    pub source: &'a DocComment,
}

/// What a successful parse promises: base fields carried over unchanged and
/// every tag-derived field equal to its model over the input tag sequence.
pub open spec fn entry_matches<'a>(
    e: FunctionDocEntry<'a>,
    args: DocEntryParseArguments<'a>,
    function_type: FunctionType,
) -> bool {
    &&& e.name == args.name
    &&& e.desc == args.desc
    &&& (args.within matches Some(w) && e.within == w)
    &&& e.function_type == function_type
    &&& e.source == args.source
    &&& e.params@ == params_of(args.tags@)
    &&& e.returns@ == returns_of(args.tags@)
    &&& e.tags@ == custom_tags_of(args.tags@)
    &&& e.errors@ == errors_of(args.tags@)
    &&& e.realm@ == realm_of(args.tags@)
    &&& e.private == has_private(args.tags@)
    &&& e.unreleased == has_unreleased(args.tags@)
    &&& e.yields == has_yields(args.tags@)
    &&& e.ignore == has_ignore(args.tags@)
    &&& e.since == since_of(args.tags@)
    &&& e.deprecated == deprecated_of(args.tags@)
}

/// What a failed parse promises: one diagnostic per rejected tag, in input
/// order, each referencing its tag and carrying the fixed message.
pub open spec fn diagnostics_match(d: Diagnostics, tags: Seq<Tag>) -> bool {
    &&& d.diagnostics@.len() == rejected_of(tags).len()
    &&& forall|i: int|
        0 <= i < d.diagnostics@.len() ==> (#[trigger] d.diagnostics@[i]).tag == rejected_of(
            tags,
        )[i] && d.diagnostics@[i].message@ == unused_tag_message()
}

impl<'a> FunctionDocEntry<'a> {
    /// Dispatches the tag sequence in input order into a fresh entry: payload
    /// tags append to their collections, markers set flags or extend the
    /// realm set, singular tags overwrite, and every tag outside the function
    /// accept-set is collected. Succeeds exactly when nothing was rejected;
    /// otherwise returns one diagnostic per rejected tag, in input order.
    #[verifier::loop_isolation(false)]
    pub fn parse(
        args: DocEntryParseArguments<'a>,
        function_type: FunctionType,
    ) -> (r: Result<FunctionDocEntry<'a>, Diagnostics>)
        requires
            args.within is Some,
        ensures
            r is Ok <==> rejected_of(args.tags@).len() == 0,
            (r matches Ok(e) ==> entry_matches(e, args, function_type)),
            (r matches Err(d) ==> diagnostics_match(d, args.tags@)),
    {
        let DocEntryParseArguments { name, desc, within, mut tags, source } = args;

        let mut params: Vec<ParamTag> = Vec::new();
        let mut return_tags: Vec<ReturnTag> = Vec::new();
        let mut custom_tags: Vec<CustomTag> = Vec::new();
        let mut errors: Vec<ErrorTag> = Vec::new();
        let mut realm = RealmSet::new();
        let mut private: bool = false;
        let mut unreleased: bool = false;
        let mut yields: bool = false;
        let mut ignore: bool = false;
        let mut since: Option<String> = None;
        let mut deprecated: Option<DeprecatedTag> = None;
        let mut unused_tags: Vec<Tag> = Vec::new();

        let ghost all: Seq<Tag> = tags@;
        let ghost mut done: int = 0;

        while tags.len() > 0
            invariant
                0 <= done <= all.len(),
                tags@ == all.subrange(done, all.len() as int),
                params@ == params_of(all.take(done)),
                return_tags@ == returns_of(all.take(done)),
                custom_tags@ == custom_tags_of(all.take(done)),
                errors@ == errors_of(all.take(done)),
                realm@ == realm_of(all.take(done)),
                private == has_private(all.take(done)),
                unreleased == has_unreleased(all.take(done)),
                yields == has_yields(all.take(done)),
                ignore == has_ignore(all.take(done)),
                since == since_of(all.take(done)),
                deprecated == deprecated_of(all.take(done)),
                unused_tags@ == rejected_of(all.take(done)),
            decreases tags@.len(),
        {
            let tag = tags.remove(0);
            proof {
                assert(tag == all[done]);
                assert(all.take(done + 1) =~= all.take(done).push(tag));
                lemma_model_push(all.take(done), tag);
            }
            match tag {
                Tag::Param(param) => params.push(param),
                Tag::Return(return_tag) => return_tags.push(return_tag),
                Tag::Deprecated(deprecated_tag) => deprecated = Some(deprecated_tag),
                Tag::Since(since_tag) => since = Some(since_tag.version),
                Tag::Custom(custom_tag) => custom_tags.push(custom_tag),
                Tag::Error(error_tag) => errors.push(error_tag),
                Tag::Private => private = true,
                Tag::Unreleased => unreleased = true,
                Tag::Yields => yields = true,
                Tag::Ignore => ignore = true,
                Tag::Server => realm.insert(Realm::Server),
                Tag::Client => realm.insert(Realm::Client),
                Tag::Within(_) | Tag::Field(_) | Tag::ReadOnly => unused_tags.push(tag),
            }
            proof {
                done = done + 1;
                assert(tags@ =~= all.subrange(done, all.len() as int));
            }
        }

        proof {
            assert(all.take(done) =~= all);
        }

        if unused_tags.len() > 0 {
            let ghost rejected: Seq<Tag> = rejected_of(all);
            let mut diagnostics: Vec<Diagnostic> = Vec::new();
            while unused_tags.len() > 0
                invariant
                    diagnostics@.len() + unused_tags@.len() == rejected.len(),
                    unused_tags@ == rejected.subrange(
                        diagnostics@.len() as int,
                        rejected.len() as int,
                    ),
                    forall|i: int|
                        0 <= i < diagnostics@.len() ==> (#[trigger] diagnostics@[i]).tag
                            == rejected[i] && diagnostics@[i].message@ == unused_tag_message(),
                decreases unused_tags@.len(),
            {
                let ghost seen: int = diagnostics@.len() as int;
                let tag = unused_tags.remove(0);
                proof {
                    assert(tag == rejected[seen]);
                }
                let d = tag.diagnostic("This tag is unused by function doc entries.");
                diagnostics.push(d);
                proof {
                    assert(unused_tags@ =~= rejected.subrange(
                        diagnostics@.len() as int,
                        rejected.len() as int,
                    ));
                }
            }
            return Err(Diagnostics::from(diagnostics));
        }

        Ok(
            FunctionDocEntry {
                name,
                desc,
                within: within.unwrap(),
                params,
                returns: return_tags,
                tags: custom_tags,
                errors,
                function_type,
                realm,
                private,
                unreleased,
                yields,
                ignore,
                since,
                deprecated,
                source,
            },
        )
    }
}

} // verus!
