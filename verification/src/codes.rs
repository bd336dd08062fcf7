//! Connect codes: their wire names and the HTTP statuses that carry them.
use crate::text::same_text;
use vstd::prelude::*;

verus! {

/// The HTTP statuses that carry the codes 0 to 16.
pub open spec fn statuses() -> Seq<int> {
    seq![500, 499, 500, 400, 504, 404, 409, 403, 429, 400, 409, 400, 501, 500, 503, 500, 401]
}

/// The HTTP status that carries an error code.
pub open spec fn status_of_code(code: int) -> int {
    if 0 <= code <= 16 {
        statuses()[code]
    } else {
        500
    }
}

/// The code that an HTTP status stands for: a status that stands for none of its
/// own is an internal error.
pub open spec fn code_of_status(status: int) -> int {
    if status == 400 {
        3
    } else if status == 401 {
        16
    } else if status == 403 {
        7
    } else if status == 404 {
        5
    } else if status == 409 {
        10
    } else if status == 429 {
        8
    } else if status == 499 {
        1
    } else if status == 501 {
        12
    } else if status == 503 {
        14
    } else if status == 504 {
        4
    } else {
        13
    }
}

/// The wire names of the codes 0 to 16.
pub open spec fn code_names() -> Seq<Seq<char>> {
    seq![
        "ok"@,
        "canceled"@,
        "unknown"@,
        "invalid_argument"@,
        "deadline_exceeded"@,
        "not_found"@,
        "already_exists"@,
        "permission_denied"@,
        "resource_exhausted"@,
        "failed_precondition"@,
        "aborted"@,
        "out_of_range"@,
        "unimplemented"@,
        "internal"@,
        "unavailable"@,
        "data_loss"@,
        "unauthenticated"@,
    ]
}

/// The wire name of a code; a code without a name of its own is `unknown`.
pub open spec fn code_name(code: int) -> Seq<char> {
    if 0 <= code <= 16 {
        code_names()[code]
    } else {
        "unknown"@
    }
}

/// The code of a wire name; a name that stands for no code is the code 2.
pub open spec fn code_of_name(name: Seq<char>) -> int {
    if code_names().contains(name) {
        code_names().index_of(name)
    } else {
        2
    }
}

/// Error code to HTTP status.
pub fn http_status(code: i32) -> (status: u16)
    ensures
        status == status_of_code(code as int),
{
    match code {
        3 | 9 | 11 => 400,
        16 => 401,
        7 => 403,
        5 => 404,
        6 | 10 => 409,
        8 => 429,
        1 => 499,
        12 => 501,
        14 => 503,
        4 => 504,
        _ => 500,
    }
}

/// HTTP status to error code.
pub fn connect_from_status(status: u16) -> (code: i32)
    ensures
        code == code_of_status(status as int),
{
    match status {
        400 => 3,
        401 => 16,
        403 => 7,
        404 => 5,
        409 => 10,
        429 => 8,
        499 => 1,
        501 => 12,
        503 => 14,
        504 => 4,
        _ => 13,
    }
}

/// Code to its lower-case wire name.
pub fn code_to_string(code: i32) -> (name: &'static str)
    ensures
        name@ == code_name(code as int),
{
    match code {
        0 => "ok",
        1 => "canceled",
        3 => "invalid_argument",
        4 => "deadline_exceeded",
        5 => "not_found",
        6 => "already_exists",
        7 => "permission_denied",
        8 => "resource_exhausted",
        9 => "failed_precondition",
        10 => "aborted",
        11 => "out_of_range",
        12 => "unimplemented",
        13 => "internal",
        14 => "unavailable",
        15 => "data_loss",
        16 => "unauthenticated",
        _ => "unknown",
    }
}

/// Wire name to code.
pub fn code_from_string(name: &str) -> (code: i32)
    ensures
        code == code_of_name(name@),
{
    let mut code: i32 = 0;
    while code <= 16
        invariant
            0 <= code <= 17,
            forall|i: int| 0 <= i < code ==> #[trigger] code_names()[i] != name@,
        decreases 17 - code,
    {
        if same_text(name, code_to_string(code)) {
            proof {
                assert(code_names()[code as int] == name@);
                law_names_differ();
                let at = code_names().index_of(name@);
                assert(code_names()[at] == name@);
            }
            return code;
        }
        code += 1;
    }
    2
}

/// No two codes from 0 to 16 have the same name.
pub proof fn law_names_differ()
    ensures
        forall|i: int, j: int|
            0 <= i < j < 17 ==> #[trigger] code_names()[i] != #[trigger] code_names()[j],
{
    reveal_strlit("ok");
    reveal_strlit("canceled");
    reveal_strlit("unknown");
    reveal_strlit("invalid_argument");
    reveal_strlit("deadline_exceeded");
    reveal_strlit("not_found");
    reveal_strlit("already_exists");
    reveal_strlit("permission_denied");
    reveal_strlit("resource_exhausted");
    reveal_strlit("failed_precondition");
    reveal_strlit("aborted");
    reveal_strlit("out_of_range");
    reveal_strlit("unimplemented");
    reveal_strlit("internal");
    reveal_strlit("unavailable");
    reveal_strlit("data_loss");
    reveal_strlit("unauthenticated");
    let n = code_names();
    let sizes: Seq<nat> = seq![2, 8, 7, 16, 17, 9, 14, 17, 18, 19, 7, 12, 13, 8, 11, 9, 15];
    assert forall|i: int| 0 <= i < 17 implies (#[trigger] n[i]).len() == sizes[i] by {}
    // Names of one length begin with different letters.
    assert(n[1][0] != n[13][0] && n[2][0] != n[10][0] && n[4][0] != n[7][0] && n[5][0] != n[15][0]);
    assert forall|i: int, j: int| 0 <= i < j < 17 implies #[trigger] n[i] != #[trigger] n[j] by {
        if sizes[i] == sizes[j] {
            assert((i, j) == (1int, 13int) || (i, j) == (2int, 10int) || (i, j) == (4int, 7int) || (i,
                j) == (5int, 15int));
        }
    }
}

/// A named code is read back from its name; every other code is read as 2.
pub proof fn law_code_names_read_back(code: int)
    ensures
        0 <= code <= 16 ==> code_of_name(code_name(code)) == code,
        !(0 <= code <= 16) ==> code_of_name(code_name(code)) == 2,
{
    law_names_differ();
    let named = if 0 <= code <= 16 {
        code
    } else {
        2
    };
    assert(code_names()[named] == code_name(code));
    let at = code_names().index_of(code_name(code));
    assert(code_names()[at] == code_name(code));
}

/// A status that stands for a code of its own is the status of that code.
pub proof fn law_status_reads_back(status: int)
    requires
        code_of_status(status) != 13,
    ensures
        status_of_code(code_of_status(status)) == status,
{
}

/// Every failure has an HTTP status that a client reads as a failure.
pub proof fn law_statuses_are_failures(code: int)
    ensures
        400 <= status_of_code(code) < 600,
{
    if 0 <= code <= 16 {
        assert forall|i: int| 0 <= i < 17 implies 400 <= #[trigger] statuses()[i] < 600 by {}
    }
}

/// The ten statuses that stand for a code of their own are those of the codes that
/// have a status for themselves, or are the last of those that share it; any other
/// status stands for an internal error.
pub proof fn law_statuses_stand_for_codes(status: int)
    ensures
        ({
            let code = code_of_status(status);
            let own = set![1int, 3, 4, 5, 7, 8, 10, 12, 14, 16];
            &&& code == 13 || own.contains(code) && status_of_code(code) == status
            &&& forall|c: int| #[trigger] own.contains(c) && status_of_code(c) == status ==> code == c
        }),
{
}

/// The status of a code goes by what the code blames: the request, the caller, the
/// state of things, or the server. A code that has none is an internal error.
pub proof fn law_codes_have_statuses(code: int)
    ensures
        status_of_code(code) == 400 <==> code == 3 || code == 9 || code == 11,
        status_of_code(code) == 401 <==> code == 16,
        status_of_code(code) == 403 <==> code == 7,
        status_of_code(code) == 404 <==> code == 5,
        status_of_code(code) == 409 <==> code == 6 || code == 10,
        status_of_code(code) == 429 <==> code == 8,
        status_of_code(code) == 499 <==> code == 1,
        status_of_code(code) == 501 <==> code == 12,
        status_of_code(code) == 503 <==> code == 14,
        status_of_code(code) == 504 <==> code == 4,
        status_of_code(code) == 500 <==> code < 1 || code > 16 || code == 2 || code == 13 || code
            == 15,
{
    if 0 <= code <= 16 {
        assert forall|i: int| 0 <= i < 17 implies (#[trigger] statuses()[i] == 400) == (i == 3 || i
            == 9 || i == 11) by {}
    }
}

/// A name that stands for a code is the name of that code; every other name stands
/// for the code 2, and so does every code without a name.
pub proof fn law_names_stand_for_codes(name: Seq<char>, code: int)
    ensures
        0 <= code_of_name(name) <= 16,
        code_of_name(name) != 2 ==> code_name(code_of_name(name)) == name,
        0 <= code <= 16 && code_name(code) == name ==> code_of_name(name) == code,
        !(0 <= code <= 16) ==> code_name(code) == "unknown"@,
{
    law_code_names_read_back(code);
    if code_names().contains(name) {
        let at = code_names().index_of(name);
        assert(code_names()[at] == name);
    }
}

} // verus!
