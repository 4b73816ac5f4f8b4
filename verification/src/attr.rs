//! Attributes of a study, given as `key:value`.

use vstd::prelude::*;
use vstd::string::*;
use crate::error::Error;

verus! {

/// An attribute of a study.
#[derive(Debug)]
pub struct Attr {
    pub key: String,
    pub value: String,
}

/// How many characters come before the first colon, or before the end of
/// the text where there is no colon.
pub open spec fn key_len(s: Seq<char>) -> int
    decreases s.len(),
{
    if s.len() == 0 || s[0] == ':' {
        0
    } else {
        1 + key_len(s.drop_first())
    }
}

/// The key length lies within the text; where it falls short of the end,
/// a colon stands there.
pub proof fn lemma_key_len(s: Seq<char>)
    ensures
        0 <= key_len(s) <= s.len(),
        key_len(s) < s.len() ==> s[key_len(s)] == ':',
        forall|i: int| 0 <= i < key_len(s) ==> #[trigger] s[i] != ':',
    decreases s.len(),
{
    if s.len() == 0 || s[0] == ':' {
    } else {
        let rest = s.drop_first();
        lemma_key_len(rest);
        assert forall|i: int| 0 <= i < key_len(s) implies #[trigger] s[i] != ':' by {
            if i > 0 {
                assert(s[i] == rest[i - 1]);
            }
        }
    }
}

impl Attr {
    /// Reads `key:value`. The key is what stands before the first colon,
    /// the value all that follows it; a text without a colon is an error.
    pub fn from_str(s: &str) -> (r: Result<Self, Error>)
        ensures
            key_len(s@) == s@.len() ==> r is Err && r->Err_0 == Error::MissingAttrValue,
            key_len(s@) < s@.len() ==> r is Ok && r->Ok_0.key@ == s@.take(key_len(s@))
                && r->Ok_0.value@ == s@.skip(key_len(s@) + 1),
    {
        let n = s.unicode_len();
        let mut i: usize = 0;
        proof {
            assert(s@.skip(0) =~= s@);
        }
        while i < n && s.get_char(i) != ':'
            invariant
                n == s@.len(),
                i <= n,
                key_len(s@) == i + key_len(s@.skip(i as int)),
            decreases n - i,
        {
            proof {
                let rest = s@.skip(i as int);
                assert(rest[0] == s@[i as int]);
                assert(rest.drop_first() =~= s@.skip(i + 1));
            }
            i = i + 1;
        }
        proof {
            let rest = s@.skip(i as int);
            if i < n {
                assert(rest[0] == s@[i as int]);
            } else {
                assert(rest.len() == 0);
            }
        }
        if i == n {
            return Err(Error::MissingAttrValue);
        }
        let key = s.substring_char(0, i);
        let value = s.substring_char(i + 1, n);
        proof {
            assert(s@.subrange(0, i as int) =~= s@.take(i as int));
            assert(s@.subrange(i + 1, n as int) =~= s@.skip(i + 1));
        }
        Ok(Attr { key: key.to_owned(), value: value.to_owned() })
    }
}

} // verus!
