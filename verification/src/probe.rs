//! A probe that asks a service for the address under which it is seen.
use crate::text::{
    chars_of, find_text, occurs_at, text_contains, text_of, trim_text, trimmed,
};
use vstd::prelude::*;
use vstd::string::*;

verus! {

/// The request of the probe.
pub fn probe_request() -> (r: String)
    ensures
        r@ == "GET / HTTP/1.0\r\nHost: ifconfig.me\r\nUser-Agent: curl/7.79.1\r\nAccept: */*\r\n\r\n"@,
{
    "GET / HTTP/1.0\r\nHost: ifconfig.me\r\nUser-Agent: curl/7.79.1\r\nAccept: */*\r\n\r\n".to_string()
}

/// The body of a response: what follows its first empty line.
pub open spec fn is_body(response: Seq<char>, body: Seq<char>) -> bool {
    exists|i: int|
        #![trigger occurs_at(response, "\r\n\r\n"@, i)]
        {
            &&& occurs_at(response, "\r\n\r\n"@, i)
            &&& forall|j: int| 0 <= j < i ==> !occurs_at(response, "\r\n\r\n"@, j)
            &&& body == response.skip(i + 4)
        }
}

/// The body of a response, if it has an empty line.
pub fn response_body(response: &str) -> (r: Option<String>)
    ensures
        match r {
            Some(body) => is_body(response@, body@),
            None => !text_contains(response@, "\r\n\r\n"@),
        },
{
    let c = chars_of(response);
    let end = chars_of("\r\n\r\n");
    proof {
        reveal_strlit("\r\n\r\n");
    }
    match find_text(&c, &end) {
        Some(i) => {
            let n: usize = c.len();
            let body = text_of(&c, i + 4, n);
            assert(body@ =~= response@.skip(i + 4));
            Some(body)
        },
        None => None,
    }
}

/// What the probe prints: the body without surrounding white space, or the whole response where
/// it has no empty line.
pub fn probe_report(response: &str) -> (r: String)
    ensures
        if text_contains(response@, "\r\n\r\n"@) {
            exists|body: Seq<char>|
                #![trigger is_body(response@, body)]
                is_body(response@, body) && r@ == "\n[RESULT] Your external IP is: "@ + trimmed(body)
        } else {
            r@ == "\n[RAW RESPONSE]:\n"@ + response@
        },
{
    match response_body(response) {
        Some(body) => {
            let mut s = "\n[RESULT] Your external IP is: ".to_string();
            let t = trim_text(body.as_str());
            s.append(t.as_str());
            assert(is_body(response@, body@));
            s
        },
        None => {
            let mut s = "\n[RAW RESPONSE]:\n".to_string();
            s.append(response);
            s
        },
    }
}

/// A response has at most one body.
pub proof fn body_is_unique(response: Seq<char>, a: Seq<char>, b: Seq<char>)
    requires
        is_body(response, a),
        is_body(response, b),
    ensures
        a == b,
{
}

/// A response is its head, an empty line and its body, where the head and the line together hold no
/// earlier empty line; and whatever is so put together has that body.
pub proof fn responses_are_head_and_body(response: Seq<char>, head: Seq<char>, body: Seq<char>)
    ensures
        is_body(response, body) ==> exists|h: Seq<char>|
            response == #[trigger] (h + "\r\n\r\n"@) + body && !text_contains(
                h + "\r\n\r"@,
                "\r\n\r\n"@,
            ),
        response == head + "\r\n\r\n"@ + body && !text_contains(head + "\r\n\r"@, "\r\n\r\n"@)
            ==> is_body(response, body),
{
    let end = "\r\n\r\n"@;
    let line = "\r\n\r"@;
    assert(end.len() == 4 && line == end.take(3)) by {
        reveal_strlit("\r\n\r\n");
        reveal_strlit("\r\n\r");
        assert(line =~= end.take(3));
    }
    if is_body(response, body) {
        let i = choose|i: int|
            #![trigger occurs_at(response, end, i)]
            {
                &&& occurs_at(response, end, i)
                &&& forall|j: int| 0 <= j < i ==> !occurs_at(response, end, j)
                &&& body == response.skip(i + 4)
            };
        let h = response.take(i);
        assert(response =~= (h + response.subrange(i, i + 4)) + response.skip(i + 4));
        if text_contains(h + line, end) {
            let j = choose|j: int| occurs_at(h + line, end, j);
            earlier_line_is_in_response(h, end, line, body, j);
        }
    }
    if response == head + end + body && !text_contains(head + line, end) {
        let i = head.len() as int;
        assert(response.subrange(i, i + 4) =~= end);
        assert(body =~= response.skip(i + 4));
        assert(occurs_at(response, end, i));
        assert forall|j: int| 0 <= j < i implies !occurs_at(response, end, j) by {
            earlier_line_is_in_response(head, end, line, body, j);
            assert(!occurs_at(head + line, end, j));
        }
    }
}

/// What stands before the last character of the empty line stands there whatever follows.
proof fn earlier_line_is_in_response(
    head: Seq<char>,
    end: Seq<char>,
    line: Seq<char>,
    body: Seq<char>,
    j: int,
)
    requires
        end.len() == 4,
        line == end.take(3),
        0 <= j < head.len() || occurs_at(head + line, end, j),
    ensures
        j < head.len(),
        occurs_at(head + end + body, end, j) == occurs_at(head + line, end, j),
{
    assert((head + line).subrange(j, j + 4) =~= (head + end + body).subrange(j, j + 4));
}

}
