//! Board identity: a fully qualified board name `packager:arch:boardId`,
//! split from its colon-delimited form, together with the version of the
//! platform the board belongs to.

use vstd::prelude::*;
use crate::chars::{str_to_chars, chars_to_string};
use crate::strops::{spec_split_char, split_char, views, spec_join_char, extend_chars};
use crate::EngineError;

verus! {

/// The parts of a fully qualified board name; extra colon-separated segments
/// (such as build options) are ignored.  Immutable once constructed.
#[derive(Debug, Clone)]
pub struct BoardIdentifier {
    pub packager: String,
    pub arch: String,
    pub board_id: String,
    pub platform_version: String,
}

impl BoardIdentifier {
    /// Splits a fully qualified board name into its identifier; fails if and
    /// only if the name has fewer than 3 colon-separated segments.
    pub fn parse(fqbn: &str, platform_version: &str) -> (r: Result<BoardIdentifier, EngineError>)
        ensures
            r is Ok <==> spec_split_char(fqbn@, ':').len() >= 3,
            r matches Ok(b) ==> {
                &&& b.packager@ == spec_split_char(fqbn@, ':')[0]
                &&& b.arch@ == spec_split_char(fqbn@, ':')[1]
                &&& b.board_id@ == spec_split_char(fqbn@, ':')[2]
                &&& b.platform_version@ == platform_version@
            },
            r matches Err(e) ==> e is InvalidBoardIdentifier,
    {
        let v = str_to_chars(fqbn);
        let segs = split_char(&v, ':');
        if segs.len() < 3 {
            return Err(EngineError::InvalidBoardIdentifier);
        }
        proof {
            assert(views(segs@)[0] == segs@[0]@);
            assert(views(segs@)[1] == segs@[1]@);
            assert(views(segs@)[2] == segs@[2]@);
        }
        let packager = chars_to_string(&segs[0]);
        let arch = chars_to_string(&segs[1]);
        let board_id = chars_to_string(&segs[2]);
        let mut pv = String::new();
        pv.append(platform_version);
        Ok(BoardIdentifier { packager, arch, board_id, platform_version: pv })
    }

    /// The first three segments joined back with colons.
    pub fn fqbn(&self) -> (r: String)
        ensures
            r@ == self.packager@ + seq![':'] + self.arch@ + seq![':'] + self.board_id@,
    {
        let mut out = str_to_chars(self.packager.as_str());
        out.push(':');
        let a = str_to_chars(self.arch.as_str());
        extend_chars(&mut out, &a);
        out.push(':');
        let b = str_to_chars(self.board_id.as_str());
        extend_chars(&mut out, &b);
        proof {
            assert(out@ =~= self.packager@ + seq![':'] + self.arch@ + seq![':'] + self.board_id@);
        }
        chars_to_string(&out)
    }
}

/// An identifier built from a name with at least 3 colon-separated
/// segments reconstructs exactly those first three segments: what `fqbn`
/// returns is their colon-joined form.
pub proof fn lemma_fqbn_reconstructs(s: Seq<char>, b: BoardIdentifier)
    requires
        spec_split_char(s, ':').len() >= 3,
        b.packager@ == spec_split_char(s, ':')[0],
        b.arch@ == spec_split_char(s, ':')[1],
        b.board_id@ == spec_split_char(s, ':')[2],
    ensures
        b.packager@ + seq![':'] + b.arch@ + seq![':'] + b.board_id@ == spec_join_char(
            spec_split_char(s, ':').take(3),
            ':',
        ),
{
    let segs = spec_split_char(s, ':').take(3);
    assert(segs.len() == 3);
    assert(segs.drop_first() =~= seq![segs[1], segs[2]]);
    assert(segs.drop_first().drop_first() =~= seq![segs[2]]);
    assert(spec_join_char(seq![segs[2]], ':') == segs[2]);
    assert(spec_join_char(segs.drop_first(), ':') == segs[1] + seq![':'] + segs[2]);
    assert(spec_join_char(segs, ':') == segs[0] + seq![':'] + (segs[1] + seq![':'] + segs[2]));
    assert(b.packager@ + seq![':'] + b.arch@ + seq![':'] + b.board_id@ =~= segs[0] + seq![':'] + (
    segs[1] + seq![':'] + segs[2]));
}

} // verus!
