//! The key codec: pure functions that build the composite key of a record
//! from its namespace, status tags, secondary identifiers and main
//! identifier, and extract the namespace back out of a raw key.
//!
//! The composite key is `namespace / "(" status-tags ")" [/ secondary...] / main`,
//! with `/` as the separator and the status tags joined by `,`.  Identifiers
//! must not contain the separator; that constraint is the record
//! constructors' to enforce, not the codec's.  The prefix that selects one
//! secondary group is closed by a separator, so that one group's name is
//! never taken for the start of a longer one.

use vstd::prelude::*;

verus! {

/// The separator between the segments of a composite key.
pub open spec fn sep_char() -> char {
    '/'
}

/// The parts joined with the separator sequence between adjacent parts.
pub open spec fn join_with(parts: Seq<Seq<char>>, sep: Seq<char>) -> Seq<char>
    decreases parts.len(),
{
    if parts.len() == 0 {
        Seq::empty()
    } else if parts.len() == 1 {
        parts[0]
    } else {
        join_with(parts.drop_last(), sep) + sep + parts.last()
    }
}

/// The status segment: the status tags joined by `,`, in parentheses.
pub open spec fn status_segment(status: Seq<Seq<char>>) -> Seq<char> {
    seq!['('] + join_with(status, seq![',']) + seq![')']
}

/// The key prefix that selects one kind and one status: `namespace/(tags)`.
pub open spec fn key_kind_status(ns: Seq<char>, status: Seq<Seq<char>>) -> Seq<char> {
    ns + seq![sep_char()] + status_segment(status)
}

/// The key prefix that selects one kind, status and secondary group:
/// `namespace/(tags)/secondary...`, or just `namespace/(tags)` when there
/// are no secondary identifiers.
pub open spec fn key_kind_status_secondary(
    ns: Seq<char>,
    status: Seq<Seq<char>>,
    secondary: Seq<Seq<char>>,
) -> Seq<char> {
    if secondary.len() == 0 {
        key_kind_status(ns, status)
    } else {
        key_kind_status(ns, status) + seq![sep_char()] + join_with(secondary, seq![sep_char()])
    }
}

/// Whether a piece of text is free of the key separator, as identifiers
/// must be for the key encoding to be unambiguous.
pub open spec fn sep_free(s: Seq<char>) -> bool {
    forall|i: int| 0 <= i < s.len() ==> s[i] != sep_char()
}

/// The prefix a group scan uses: the kind/status/secondary prefix closed
/// by one separator.  Every qualified key of the group continues with its
/// main identifier, so this selects the group and nothing keyed under a
/// group whose name merely starts the same way.
pub open spec fn group_scan_prefix(
    ns: Seq<char>,
    status: Seq<Seq<char>>,
    secondary: Seq<Seq<char>>,
) -> Seq<char> {
    key_kind_status_secondary(ns, status, secondary) + seq![sep_char()]
}

/// The full composite key of a record: the kind/status/secondary prefix
/// followed by the main identifier.
pub open spec fn qualified_key(
    ns: Seq<char>,
    status: Seq<Seq<char>>,
    secondary: Seq<Seq<char>>,
    main: Seq<char>,
) -> Seq<char> {
    key_kind_status_secondary(ns, status, secondary) + seq![sep_char()] + main
}

/// Every prefix of the key hierarchy is a prefix of the next level down:
/// the namespace starts the kind+status prefix, which starts the
/// kind+status+secondary prefix, which starts the qualified key.
pub proof fn lemma_key_prefixes(
    ns: Seq<char>,
    status: Seq<Seq<char>>,
    secondary: Seq<Seq<char>>,
    main: Seq<char>,
)
    ensures
        ns.is_prefix_of(key_kind_status(ns, status)),
        key_kind_status(ns, status).is_prefix_of(key_kind_status_secondary(ns, status, secondary)),
        key_kind_status_secondary(ns, status, secondary).is_prefix_of(
            qualified_key(ns, status, secondary, main),
        ),
        group_scan_prefix(ns, status, secondary).is_prefix_of(
            qualified_key(ns, status, secondary, main),
        ),
        key_kind_status(ns, status).is_prefix_of(qualified_key(ns, status, secondary, main)),
        ns.is_prefix_of(qualified_key(ns, status, secondary, main)),
{
    let ks = key_kind_status(ns, status);
    let kss = key_kind_status_secondary(ns, status, secondary);
    let qk = qualified_key(ns, status, secondary, main);
    assert(ns.is_prefix_of(ks)) by {
        assert(ks.subrange(0, ns.len() as int) =~= ns);
    }
    assert(ks.is_prefix_of(kss)) by {
        if secondary.len() == 0 {
        } else {
            assert(kss.subrange(0, ks.len() as int) =~= ks);
        }
    }
    assert(kss.is_prefix_of(qk)) by {
        assert(qk.subrange(0, kss.len() as int) =~= kss);
    }
    assert(group_scan_prefix(ns, status, secondary).is_prefix_of(qk)) by {
        let gp = group_scan_prefix(ns, status, secondary);
        assert(qk.subrange(0, gp.len() as int) =~= gp);
    }
    assert(ks.is_prefix_of(qk)) by {
        assert(qk.subrange(0, ks.len() as int) =~= ks);
    }
    assert(ns.is_prefix_of(qk)) by {
        assert(qk.subrange(0, ns.len() as int) =~= ns);
    }
}

/// The parts joined with the separator between adjacent parts.
pub fn join_strings(parts: &Vec<String>, sep: &str) -> (r: String)
    ensures
        r@ == join_with(parts.deep_view(), sep@),
{
    let mut r = String::new();
    let n = parts.len();
    let mut i: usize = 0;
    while i < n
        invariant
            n == parts.len(),
            i <= n,
            r@ == join_with(parts.deep_view().take(i as int), sep@),
        decreases n - i,
    {
        if i > 0 {
            r.append(sep);
        }
        r.append(parts[i].as_str());
        proof {
            let dv = parts.deep_view();
            assert(dv.take(i + 1 as int).drop_last() =~= dv.take(i as int));
            assert(dv.take(i + 1 as int).last() == dv[i as int]);
            if i > 0 {
            } else {
                assert(join_with(dv.take(1), sep@) == dv[0]);
            }
        }
        i = i + 1;
    }
    proof {
        assert(parts.deep_view().take(n as int) =~= parts.deep_view());
    }
    r
}

} // verus!
