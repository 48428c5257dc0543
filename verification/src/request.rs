//! How a chat completion request is addressed and what it carries.
use vstd::prelude::*;
use vstd::string::*;

use crate::text::{chars_of, text_to_string};

verus! {

/// The path of the chat completions API under an API base.
pub open spec fn completions_suffix() -> Seq<char> {
    "/chat/completions"@
}

/// `s` without the slashes at its end.
pub open spec fn trim_end_slashes(s: Seq<char>) -> Seq<char>
    decreases s.len(),
{
    if s.len() > 0 && s.last() == '/' {
        trim_end_slashes(s.drop_last())
    } else {
        s
    }
}

/// The endpoint to post chat completions to: `base` itself when it already
/// ends with the completions path, else `base` without its trailing slashes
/// followed by that path.
pub open spec fn spec_completions_endpoint(base: Seq<char>) -> Seq<char> {
    if completions_suffix().is_suffix_of(base) {
        base
    } else {
        trim_end_slashes(base) + completions_suffix()
    }
}

/// An endpoint is left as it is: normalising an endpoint a second time
/// changes nothing.
pub proof fn lemma_completions_endpoint_idempotent(base: Seq<char>)
    ensures
        spec_completions_endpoint(spec_completions_endpoint(base)) == spec_completions_endpoint(
            base,
        ),
{
    let suffix = completions_suffix();
    if !suffix.is_suffix_of(base) {
        let joined = trim_end_slashes(base) + suffix;
        assert(joined.subrange(joined.len() - suffix.len(), joined.len() as int) =~= suffix);
    }
}

/// The endpoint to post chat completions to, for an API base or a full
/// endpoint.
pub fn completions_endpoint(base: &str) -> (endpoint: String)
    ensures
        endpoint@ == spec_completions_endpoint(base@),
{
    let suffix = "/chat/completions";
    let b = chars_of(base);
    let s = chars_of(suffix);
    if s.len() <= b.len() {
        let offset = b.len() - s.len();
        let mut i: usize = 0;
        let mut matched = true;
        while i < s.len()
            invariant
                offset as int + s.len() as int == b.len() as int,
                s.len() == s@.len(),
                b.len() == b@.len(),
                i <= s@.len(),
                matched <==> forall|k: int| 0 <= k < i ==> b@[offset + k] == s@[k],
            decreases s@.len() - i,
        {
            if b[offset + i] != s[i] {
                matched = false;
            }
            i = i + 1;
        }
        if matched {
            assert(b@.subrange(offset as int, b@.len() as int) =~= s@);
            return text_to_string(base);
        }
        let ghost k = choose|k: int| 0 <= k < s@.len() && b@[offset + k] != s@[k];
        assert(b@.subrange(offset as int, b@.len() as int)[k] != s@[k]);
    }
    let mut end = b.len();
    assert(b@.take(end as int) =~= b@);
    while end > 0 && b[end - 1] == '/'
        invariant
            end <= b@.len(),
            trim_end_slashes(b@) == trim_end_slashes(b@.take(end as int)),
        decreases end,
    {
        assert(b@.take(end as int).drop_last() =~= b@.take(end - 1));
        end = end - 1;
    }
    let mut endpoint = text_to_string(base.substring_char(0, end));
    assert(b@.take(end as int) =~= base@.subrange(0, end as int));
    endpoint.append(suffix);
    endpoint
}

/// The value of the authorization header that carries `api_key`.
pub fn bearer_authorization(api_key: &str) -> (header: String)
    ensures
        header@ == "Bearer "@ + api_key@,
{
    let mut header = text_to_string("Bearer ");
    header.append(api_key);
    header
}

/// Whether a request carries the tool definitions: only when they form a
/// list that is not empty (`tool_count` is the length of that list, or none
/// when the definitions are not a list).
pub fn should_send_tools(tool_count: Option<usize>) -> (send: bool)
    ensures
        send == (tool_count matches Some(n) && n > 0),
{
    match tool_count {
        Some(n) => n > 0,
        None => false,
    }
}

} // verus!
