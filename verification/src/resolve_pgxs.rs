//! Build-file surgery for the extension build pipeline: the managed patch
//! block this tooling maintains inside a build file it does not own.

use vstd::prelude::*;

use crate::text::{find_sub, first_occurrence, has_occurrence, is_first_occurrence,
    lemma_first_occurrence, occurs_at};

verus! {

/// What [`patch_makefile`] produces: the managed block — the patch text
/// between the begin and end markers — replaces an existing managed block,
/// or is appended after the original content when none is present.
pub open spec fn spec_patched_makefile(content: Seq<char>, patch: Seq<char>) -> Seq<char> {
    let begin = ("\n# *****BEGIN PGEXT-CLI***** #\n")@;
    let end = ("\n# *****END PGEXT-CLI***** #\n")@;
    if has_occurrence(content, begin) {
        let i = first_occurrence(content, begin);
        let before = content.subrange(0, i);
        let rest = content.subrange(i + begin.len() as int, content.len() as int);
        let j = first_occurrence(rest, end);
        let after = rest.subrange(j + end.len() as int, rest.len() as int);
        before + begin + patch + end + after
    } else {
        content + begin + patch + end
    }
}

/// A begin marker in the content is followed by an end marker: the managed
/// block, once written, is well formed.
pub open spec fn spec_block_well_formed(content: Seq<char>) -> bool {
    let begin = ("\n# *****BEGIN PGEXT-CLI***** #\n")@;
    let end = ("\n# *****END PGEXT-CLI***** #\n")@;
    has_occurrence(content, begin) ==> has_occurrence(
        content.subrange(first_occurrence(content, begin) + begin.len() as int, content.len() as int),
        end,
    )
}

/// Make patches to the PGXS Makefile: replace this tooling's managed block
/// with `patch`, appending a fresh block when the content has none yet.
pub fn patch_makefile(content: &str, patch: &str) -> (r: String)
    requires
        spec_block_well_formed(content@),
    ensures
        r@ == spec_patched_makefile(content@, patch@),
{
    let begin = "\n# *****BEGIN PGEXT-CLI***** #\n";
    let end = "\n# *****END PGEXT-CLI***** #\n";
    let blen = begin.unicode_len();
    let elen = end.unicode_len();
    let clen = content.unicode_len();
    match find_sub(content, begin) {
        Some(i) => {
            proof {
                lemma_first_occurrence(content@, begin@, i as int);
            }
            let before = content.substring_char(0, i);
            let rest = content.substring_char(i + blen, clen);
            let j = match find_sub(rest, end) {
                Some(j) => j,
                None => unreached(),
            };
            proof {
                lemma_first_occurrence(rest@, end@, j as int);
            }
            let rlen = rest.unicode_len();
            let after = rest.substring_char(j + elen, rlen);
            let mut out: String = before.to_owned();
            out.append(begin);
            out.append(patch);
            out.append(end);
            out.append(after);
            proof {
                assert(out@ =~= spec_patched_makefile(content@, patch@));
            }
            out
        },
        None => {
            let mut out: String = content.to_owned();
            out.append(begin);
            out.append(patch);
            out.append(end);
            proof {
                assert(out@ =~= spec_patched_makefile(content@, patch@));
            }
            out
        },
    }
}

} // verus!
