//! Request classification: decides, from the path alone, whether a request
//! is exempt from analytics or analytics-eligible.

use vstd::prelude::*;
use crate::text::after_last;
use crate::text::after_last_exec;
use crate::text::lemma_after_last_bounds;
use crate::text::str_eq;

verus! {

/// The fixed internal development-websocket path; always exempt.
pub open spec fn spec_ws_path() -> Seq<char> {
    "/_trunk/ws"@
}

pub fn ws_path() -> (r: &'static str)
    ensures
        r@ == spec_ws_path(),
{
    "/_trunk/ws"
}

/// The file extension of a path: the part of the final path segment after
/// its last `.`, or `None` when the final segment holds no `.` at all.
pub open spec fn spec_extension(path: Seq<char>) -> Option<Seq<char>> {
    let seg = path.skip(after_last(path, '/'));
    if after_last(seg, '.') == 0 {
        None
    } else {
        Some(seg.skip(after_last(seg, '.')))
    }
}

/// Decides whether a request path bypasses analytics. The rules, first
/// match wins: the exact internal websocket path is exempt; a path whose
/// extension is in the configured static-asset set is exempt; anything
/// else is analytics-eligible.
pub struct RequestClassifier {
    pub exempt_extensions: Vec<String>,
}

impl RequestClassifier {
    pub open spec fn spec_exempt(&self, path: Seq<char>) -> bool {
        path == spec_ws_path() || match spec_extension(path) {
            Some(e) => exists|k: int|
                0 <= k < self.exempt_extensions@.len() && self.exempt_extensions@[k]@ == e,
            None => false,
        }
    }

    /// The fixed static-asset extension set used in production.
    pub fn with_default_extensions() -> (r: RequestClassifier)
        ensures
            r.exempt_extensions@.len() == 8,
            r.exempt_extensions@[0]@ == "wasm"@,
            r.exempt_extensions@[1]@ == "js"@,
            r.exempt_extensions@[2]@ == "png"@,
            r.exempt_extensions@[3]@ == "jpg"@,
            r.exempt_extensions@[4]@ == "vert"@,
            r.exempt_extensions@[5]@ == "scss"@,
            r.exempt_extensions@[6]@ == "frag"@,
            r.exempt_extensions@[7]@ == "css"@,
    {
        let mut exts: Vec<String> = Vec::new();
        exts.push(String::from_str("wasm"));
        exts.push(String::from_str("js"));
        exts.push(String::from_str("png"));
        exts.push(String::from_str("jpg"));
        exts.push(String::from_str("vert"));
        exts.push(String::from_str("scss"));
        exts.push(String::from_str("frag"));
        exts.push(String::from_str("css"));
        RequestClassifier { exempt_extensions: exts }
    }

    /// Pure decision over the path string; no side effects.
    pub fn is_exempt(&self, path: &str) -> (r: bool)
        ensures
            r == self.spec_exempt(path@),
    {
        if str_eq(path, ws_path()) {
            return true;
        }
        let n = path.unicode_len();
        let seg_start = after_last_exec(path, '/');
        proof {
            lemma_after_last_bounds(path@, '/');
        }
        let seg = path.substring_char(seg_start, n);
        proof {
            assert(seg@ =~= path@.skip(after_last(path@, '/')));
        }
        let dot = after_last_exec(seg, '.');
        if dot == 0 {
            return false;
        }
        proof {
            lemma_after_last_bounds(seg@, '.');
        }
        let ext = seg.substring_char(dot, seg.unicode_len());
        proof {
            assert(ext@ =~= seg@.skip(after_last(seg@, '.')));
            assert(spec_extension(path@) == Some(ext@));
        }
        let mut k: usize = 0;
        while k < self.exempt_extensions.len()
            invariant
                k <= self.exempt_extensions@.len(),
                spec_extension(path@) == Some(ext@),
                path@ != spec_ws_path(),
                forall|j: int| 0 <= j < k ==> self.exempt_extensions@[j]@ != ext@,
            decreases self.exempt_extensions@.len() - k,
        {
            if str_eq(ext, self.exempt_extensions[k].as_str()) {
                return true;
            }
            k += 1;
        }
        false
    }
}

} // verus!
