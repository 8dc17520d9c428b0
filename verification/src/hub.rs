//! Hugging Face Hub model references: `hf:<owner>/<repo>[/variant]`.
//! Downloading goes through the Hub client outside this library; what is
//! decided here is how a reference string reads.
use vstd::prelude::*;

use crate::text::{str_chars, string_from_chars};

verus! {

/// Default Hub repo: f16 at the root, quantized variants in subdirs.
pub const DEFAULT_HUB_REPO: &'static str = "vpermilp/spellman";

/// Position of the first `/` of `s` at or after `from`, or `-1`.
pub open spec fn first_slash(s: Seq<char>, from: int) -> int
    decreases s.len() - from,
{
    if from < 0 || from >= s.len() {
        -1
    } else if s[from] == '/' {
        from
    } else {
        first_slash(s, from + 1)
    }
}

/// `hf:`
pub open spec fn hub_prefix() -> Seq<char> {
    seq!['h', 'f', ':']
}

/// The reading of `hf:<owner>/<repo>[/variant]`: `(owner/repo, variant)`
/// when owner, repo and (if present) variant are all non-empty and there are
/// at most two `/`; `None` for anything else (a local path).
pub open spec fn spec_parse_hub_ref(s: Seq<char>) -> Option<(Seq<char>, Option<Seq<char>>)> {
    if s.len() < 3 || s.take(3) != hub_prefix() {
        None
    } else {
        let rest = s.skip(3);
        let k1 = first_slash(rest, 0);
        let k2 = first_slash(rest, k1 + 1);
        if k1 < 0 || k1 == 0 {
            None
        } else if k2 < 0 {
            if k1 + 1 < rest.len() {
                Some((rest, None))
            } else {
                None
            }
        } else if first_slash(rest, k2 + 1) >= 0 || k2 == k1 + 1 || k2 + 1 == rest.len() {
            None
        } else {
            Some((rest.take(k2), Some(rest.skip(k2 + 1))))
        }
    }
}

proof fn lemma_first_slash_facts(s: Seq<char>, from: int)
    requires
        0 <= from,
    ensures
        first_slash(s, from) == -1 || (from <= first_slash(s, from) < s.len() && s[first_slash(
            s,
            from,
        )] == '/'),
        first_slash(s, from) == -1 ==> forall|j: int| from <= j < s.len() ==> s[j] != '/',
        first_slash(s, from) >= 0 ==> forall|j: int| from <= j < first_slash(s, from) ==> s[j] != '/',
    decreases s.len() - from,
{
    if from < s.len() && s[from] != '/' {
        lemma_first_slash_facts(s, from + 1);
    }
}

/// Exec form of [`first_slash`].
fn find_slash(s: &[char], from: usize) -> (r: Option<usize>)
    requires
        from <= s@.len(),
    ensures
        match r {
            Some(k) => k == first_slash(s@, from as int),
            None => first_slash(s@, from as int) == -1,
        },
{
    let mut k = from;
    while k < s.len() && s[k] != '/'
        invariant
            from <= k <= s@.len(),
            first_slash(s@, k as int) == first_slash(s@, from as int),
        decreases s@.len() - k,
    {
        k = k + 1;
    }
    if k == s.len() {
        None
    } else {
        Some(k)
    }
}

/// Parse `hf:<owner>/<repo>[/variant]` into `(repo id, variant)`; `None`
/// when the string is not a hub ref (i.e. a local path).
pub fn parse_hub_ref(spec: &str) -> (r: Option<(String, Option<String>)>)
    ensures
        match spec_parse_hub_ref(spec@) {
            None => r is None,
            Some((repo, variant)) => r matches Some((rr, rv)) && rr@ == repo && match variant {
                None => rv is None,
                Some(v) => rv matches Some(vv) && vv@ == v,
            },
        },
{
    let chars = str_chars(spec);
    if chars.len() < 3 || chars[0] != 'h' || chars[1] != 'f' || chars[2] != ':' {
        proof {
            if chars@.len() >= 3 {
                assert(chars@.take(3)[0] == chars@[0]);
                assert(chars@.take(3)[1] == chars@[1]);
                assert(chars@.take(3)[2] == chars@[2]);
            }
        }
        return None;
    }
    assert(chars@.take(3) == hub_prefix());
    let mut rest: Vec<char> = Vec::new();
    let mut i: usize = 3;
    while i < chars.len()
        invariant
            3 <= i <= chars@.len(),
            rest@ == chars@.subrange(3, i as int),
        decreases chars@.len() - i,
    {
        rest.push(chars[i]);
        i = i + 1;
    }
    assert(rest@ == spec@.skip(3));
    let n = rest.len();
    let k1 = match find_slash(rest.as_slice(), 0) {
        Some(k) => k,
        None => return None,
    };
    proof {
        lemma_first_slash_facts(rest@, 0);
    }
    if k1 == 0 {
        return None;
    }
    match find_slash(rest.as_slice(), k1 + 1) {
        None => {
            if k1 + 1 < n {
                Some((string_from_chars(rest.as_slice()), None))
            } else {
                None
            }
        },
        Some(k2) => {
            proof {
                lemma_first_slash_facts(rest@, k1 + 1);
            }
            if find_slash(rest.as_slice(), k2 + 1).is_some() || k2 == k1 + 1 || k2 + 1 == n {
                return None;
            }
            let mut repo: Vec<char> = Vec::new();
            let mut j: usize = 0;
            while j < k2
                invariant
                    j <= k2 < n,
                    n == rest@.len(),
                    repo@ == rest@.take(j as int),
                decreases k2 - j,
            {
                repo.push(rest[j]);
                j = j + 1;
            }
            let mut variant: Vec<char> = Vec::new();
            let mut m: usize = k2 + 1;
            while m < n
                invariant
                    k2 + 1 <= m <= n,
                    n == rest@.len(),
                    variant@ == rest@.subrange(k2 + 1, m as int),
                decreases n - m,
            {
                variant.push(rest[m]);
                m = m + 1;
            }
            assert(variant@ == rest@.skip(k2 + 1));
            Some((string_from_chars(repo.as_slice()), Some(string_from_chars(variant.as_slice()))))
        },
    }
}

} // verus!
