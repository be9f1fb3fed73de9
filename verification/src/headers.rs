//! What the proxy reads and writes among a request's headers.

use fastwebsockets::upgrade::is_upgrade_request;
use hyper::header::{HeaderMap, HeaderValue, InvalidHeaderValue, MaxSizeReached};
use hyper::Request;
use vstd::prelude::*;
use vstd::utf8::encode_utf8;

verus! {

/// The name of the header that says which host a request is for.
pub const HOST: &'static str = "host";

/// A header map of the `http` crate, which `hyper` hands out.
#[verifier::external_type_specification]
#[verifier::external_body]
#[verifier::reject_recursive_types(T)]
pub struct ExHeaderMap<T>(HeaderMap<T>);

/// A header's value, in the `http` crate.
#[verifier::external_type_specification]
#[verifier::external_body]
pub struct ExHeaderValue(HeaderValue);

/// The `http` crate's refusal of a text as a header's value.
#[verifier::external_type_specification]
#[verifier::external_body]
pub struct ExInvalidHeaderValue(InvalidHeaderValue);

/// The `http` crate's refusal of one more header.
#[verifier::external_type_specification]
#[verifier::external_body]
pub struct ExMaxSizeReached(MaxSizeReached);

/// What a header map holds: under each name, in lower case, its values in their order.
pub uninterp spec fn header_entries(headers: HeaderMap) -> Map<Seq<char>, Seq<Seq<u8>>>;

/// The bytes of a header's value.
pub uninterp spec fn header_bytes(value: HeaderValue) -> Seq<u8>;

/// Holds of the characters that a header's value may hold: a tab, and all that are neither
/// below the space nor the delete character.
pub open spec fn sendable_char(c: char) -> bool {
    c == '\t' || (c >= ' ' && c != '\x7f')
}

/// Holds of the texts that can be a header's value.
pub open spec fn sendable(text: Seq<char>) -> bool {
    forall|i: int| 0 <= i < text.len() ==> sendable_char(#[trigger] text[i])
}

/// Holds of the names that are made of lower-case letters and hyphens, up to 64 of them.
pub open spec fn plain_name(name: Seq<char>) -> bool {
    &&& 0 < name.len() <= 64
    &&& forall|i: int| 0 <= i < name.len() ==> 'a' <= (#[trigger] name[i]) <= 'z' || name[i] == '-'
}

/// `HeaderValue::from_str` of the `http` crate: it takes the texts without control characters,
/// the tab excepted, and the value holds the text's bytes.
#[verifier::external_body]
fn header_value(text: &str) -> (result: Result<HeaderValue, InvalidHeaderValue>)
    ensures
        result is Ok <==> sendable(text@),
        result matches Ok(value) ==> header_bytes(value) == encode_utf8(text@),
{
    HeaderValue::from_str(text)
}

/// `HeaderMap::try_insert` of the `http` crate: the value takes the place of all values under
/// the name and nothing else changes. It may refuse a map of more than 6553 names, which then
/// stays as it was.
#[verifier::external_body]
fn insert_header(headers: &mut HeaderMap, name: &'static str, value: HeaderValue) -> (result: Result<
    (),
    MaxSizeReached,
>)
    requires
        plain_name(name@),
    ensures
        result is Ok ==> header_entries(*final(headers)) == header_entries(*old(headers)).insert(
            name@,
            seq![header_bytes(value)],
        ),
        result is Err ==> header_entries(*final(headers)) == header_entries(*old(headers)),
        header_entries(*old(headers)).dom().len() <= 6553 ==> result is Ok,
{
    headers.try_insert(name, value).map(|_replaced| ())
}

/// `is_upgrade_request` of `fastwebsockets`: whether a `Connection` header lists `upgrade` and
/// an `Upgrade` header lists `websocket`. It looks at nothing but the headers.
#[verifier::external_body]
fn upgrade_requested(headers: &HeaderMap) -> (result: bool)
    ensures
        result == asks_for_websocket(header_entries(*headers)),
{
    let mut request = Request::new(());
    *request.headers_mut() = headers.clone();
    is_upgrade_request(&request)
}

/// Holds of the bytes that count as white space in a header's list.
pub open spec fn blank(byte: u8) -> bool {
    byte == 0x20 || byte == 0x09 || byte == 0x0a || byte == 0x0c || byte == 0x0d
}

/// A byte with an upper-case letter put in lower case.
pub open spec fn lower(byte: u8) -> u8 {
    if 0x41 <= byte <= 0x5a {
        (byte + 0x20) as u8
    } else {
        byte
    }
}

/// Holds where `start` and `end` bound one item of a list whose items commas part.
pub open spec fn is_item(value: Seq<u8>, start: int, end: int) -> bool {
    &&& 0 <= start <= end <= value.len()
    &&& start == 0 || value[start - 1] == 0x2c
    &&& end == value.len() || value[end] == 0x2c
    &&& forall|i: int| start <= i < end ==> #[trigger] value[i] != 0x2c
}

/// Holds where the bytes from `start` to `end` spell the token, in whatever case.
pub open spec fn spells(value: Seq<u8>, start: int, end: int, token: Seq<char>) -> bool {
    &&& end - start == token.len()
    &&& forall|i: int|
        0 <= i < token.len() ==> lower(value[start + i]) as char == #[trigger] token[i]
}

/// Holds where the token, with nothing but white space around it, is an item of the list.
pub open spec fn value_lists(value: Seq<u8>, token: Seq<char>) -> bool {
    exists|start: int, first: int, last: int, end: int| #[trigger]
        item_is(value, start, first, last, end, token)
}

/// Holds where an item reaches from `start` to `end` and its token from `first` to `last`.
pub open spec fn item_is(
    value: Seq<u8>,
    start: int,
    first: int,
    last: int,
    end: int,
    token: Seq<char>,
) -> bool {
    &&& is_item(value, start, end)
    &&& start <= first <= last <= end
    &&& forall|i: int| start <= i < first || last <= i < end ==> blank(#[trigger] value[i])
    &&& spells(value, first, last, token)
}

/// Holds where one of the values under the name lists the token.
pub open spec fn lists(
    entries: Map<Seq<char>, Seq<Seq<u8>>>,
    name: Seq<char>,
    token: Seq<char>,
) -> bool {
    &&& entries.dom().contains(name)
    &&& exists|i: int|
        0 <= i < entries[name].len() && value_lists(#[trigger] entries[name][i], token)
}

/// Holds of the headers of a request to turn the connection into a websocket.
pub open spec fn asks_for_websocket(entries: Map<Seq<char>, Seq<Seq<u8>>>) -> bool {
    &&& lists(entries, "connection"@, "upgrade"@)
    &&& lists(entries, "upgrade"@, "websocket"@)
}

/// Why the host cannot take the place of the one that the client named.
#[derive(Clone, Copy, Debug, PartialEq, Eq, Structural)]
pub enum HostError {
    /// The host is no text that a header can hold.
    NotSendable,
    /// The headers are too many for one more.
    TooManyHeaders,
}

/// Whether the client asks for a websocket.
pub fn is_websocket(headers: &HeaderMap) -> (result: bool)
    ensures
        result == asks_for_websocket(header_entries(*headers)),
{
    upgrade_requested(headers)
}

/// The headers that go upstream: with the configured host, where there is one, in place of
/// whatever hosts the client named.
pub open spec fn with_host(
    entries: Map<Seq<char>, Seq<Seq<u8>>>,
    http_host: Option<Seq<char>>,
) -> Map<Seq<char>, Seq<Seq<u8>>> {
    match http_host {
        Some(host) => entries.insert("host"@, seq![encode_utf8(host)]),
        None => entries,
    }
}

/// Puts the configured host, where there is one, in place of the one that the client named.
/// Every other header stays as it is, and on failure all of them do.
pub fn override_host(headers: &mut HeaderMap, http_host: Option<&str>) -> (result: Result<
    (),
    HostError,
>)
    ensures
        http_host is None ==> result is Ok,
        http_host matches Some(host) && !sendable(host@) <==> result == Err::<(), HostError>(
            HostError::NotSendable,
        ),
        result == Err::<(), HostError>(HostError::TooManyHeaders) ==> header_entries(
            *old(headers),
        ).dom().len() > 6553,
        result is Ok ==> header_entries(*final(headers)) == with_host(
            header_entries(*old(headers)),
            match http_host {
                Some(host) => Some(host@),
                None => None,
            },
        ),
        result is Ok ==> (http_host matches Some(host) ==> {
            &&& header_entries(*final(headers)).dom().contains("host"@)
            &&& header_entries(*final(headers))["host"@] == seq![encode_utf8(host@)]
        }),
        forall|name: Seq<char>|
            name != "host"@ ==> {
                &&& #[trigger] header_entries(*final(headers)).dom().contains(name)
                    == header_entries(*old(headers)).dom().contains(name)
                &&& header_entries(*final(headers))[name] == header_entries(*old(headers))[name]
            },
        result is Err ==> header_entries(*final(headers)) == header_entries(*old(headers)),
        http_host is None ==> header_entries(*final(headers)) == header_entries(*old(headers)),
        asks_for_websocket(header_entries(*final(headers))) == asks_for_websocket(
            header_entries(*old(headers)),
        ),
{
    proof {
        reveal_strlit("host");
        lemma_host_keeps_upgrade(
            header_entries(*headers),
            match http_host {
                Some(host) => Some(host@),
                None => None,
            },
        );
    }
    match http_host {
        Some(host) => match header_value(host) {
            Ok(value) => match insert_header(headers, HOST, value) {
                Ok(()) => Ok(()),
                Err(_) => Err(HostError::TooManyHeaders),
            },
            Err(_) => Err(HostError::NotSendable),
        },
        None => Ok(()),
    }
}

/// The host that is put in makes no websocket request an ordinary one, nor the reverse.
pub proof fn lemma_host_keeps_upgrade(
    entries: Map<Seq<char>, Seq<Seq<u8>>>,
    http_host: Option<Seq<char>>,
)
    ensures
        asks_for_websocket(with_host(entries, http_host)) == asks_for_websocket(entries),
{
    reveal_strlit("host");
    reveal_strlit("connection");
    reveal_strlit("upgrade");
    assert("host"@.len() != "connection"@.len());
    assert("host"@.len() != "upgrade"@.len());
}

/// Of two hosts that are put in one after the other, the second stays.
pub proof fn lemma_last_host_stays(
    entries: Map<Seq<char>, Seq<Seq<u8>>>,
    first: Option<Seq<char>>,
    second: Seq<char>,
)
    ensures
        with_host(with_host(entries, first), Some(second)) == with_host(entries, Some(second)),
{
    assert(with_host(with_host(entries, first), Some(second)) =~= with_host(entries, Some(second)));
}

/// A host that is put in is the only value under its name, whatever other headers there are and
/// whatever hosts the client named; under every other name stands what stood there before. Without
/// a host all headers stay as they are.
pub proof fn lemma_host_is_put_in(
    entries: Map<Seq<char>, Seq<Seq<u8>>>,
    host: Seq<char>,
    name: Seq<char>,
)
    ensures
        with_host(entries, Some(host)).dom().contains("host"@),
        with_host(entries, Some(host))["host"@].len() == 1,
        with_host(entries, Some(host))["host"@][0] == encode_utf8(host),
        name != "host"@ ==> {
            &&& with_host(entries, Some(host)).dom().contains(name) == entries.dom().contains(name)
            &&& with_host(entries, Some(host))[name] == entries[name]
        },
        with_host(entries, None) == entries,
{
}

/// Whether a request asks for a websocket rests on what stands under two names, and on nothing
/// else.
pub proof fn lemma_two_headers_decide(
    entries: Map<Seq<char>, Seq<Seq<u8>>>,
    other: Map<Seq<char>, Seq<Seq<u8>>>,
)
    requires
        entries.dom().contains("connection"@) == other.dom().contains("connection"@),
        entries.dom().contains("upgrade"@) == other.dom().contains("upgrade"@),
        entries["connection"@] == other["connection"@],
        entries["upgrade"@] == other["upgrade"@],
    ensures
        asks_for_websocket(entries) == asks_for_websocket(other),
{
}

/// A request asks for a websocket if and only if a value of the one header lists `upgrade` and a
/// value of the other lists `websocket`, whichever of its values that is.
pub proof fn lemma_any_value_counts(
    entries: Map<Seq<char>, Seq<Seq<u8>>>,
    connection: Seq<Seq<u8>>,
    upgrade: Seq<Seq<u8>>,
)
    requires
        entries.dom().contains("connection"@),
        entries["connection"@] == connection,
        entries.dom().contains("upgrade"@),
        entries["upgrade"@] == upgrade,
    ensures
        asks_for_websocket(entries) <==> {
            &&& exists|i: int|
                0 <= i < connection.len() && value_lists(#[trigger] connection[i], "upgrade"@)
            &&& exists|i: int|
                0 <= i < upgrade.len() && value_lists(#[trigger] upgrade[i], "websocket"@)
        },
{
}

/// A request that lacks one of the two headers asks for no websocket.
pub proof fn lemma_both_headers_are_needed(entries: Map<Seq<char>, Seq<Seq<u8>>>)
    ensures
        !entries.dom().contains("connection"@) || !entries.dom().contains("upgrade"@)
            ==> !asks_for_websocket(entries),
{
}

/// The items of a list are found again where the list stands between commas.
proof fn lemma_item_within(
    part: Seq<u8>,
    whole: Seq<u8>,
    shift: int,
    start: int,
    from: int,
    to: int,
    end: int,
    token: Seq<char>,
)
    requires
        0 <= shift,
        shift + part.len() <= whole.len(),
        whole.subrange(shift, shift + part.len()) == part,
        shift == 0 || whole[shift - 1] == 0x2c,
        shift + part.len() == whole.len() || whole[shift + part.len()] == 0x2c,
        0 <= start <= from <= to <= end <= part.len(),
    ensures
        item_is(part, start, from, to, end, token) <==> item_is(
            whole,
            shift + start,
            shift + from,
            shift + to,
            shift + end,
            token,
        ),
{
    assert forall|i: int| 0 <= i < part.len() implies #[trigger] part[i] == whole[shift + i] by {
        assert(whole.subrange(shift, shift + part.len())[i] == whole[shift + i]);
    }
    if item_is(part, start, from, to, end, token) {
        assert forall|i: int| shift + start <= i < shift + end implies #[trigger] whole[i]
            != 0x2c by {
            assert(part[i - shift] == whole[i]);
        }
        assert forall|i: int|
            shift + start <= i < shift + from || shift + to <= i < shift + end implies blank(
            #[trigger] whole[i],
        ) by {
            assert(part[i - shift] == whole[i]);
        }
        assert forall|i: int| 0 <= i < token.len() implies lower(whole[shift + from + i]) as char
            == #[trigger] token[i] by {
            assert(part[from + i] == whole[shift + from + i]);
        }
    }
    if item_is(whole, shift + start, shift + from, shift + to, shift + end, token) {
        assert forall|i: int| 0 <= i < token.len() implies lower(part[from + i]) as char
            == #[trigger] token[i] by {
            assert(part[from + i] == whole[shift + from + i]);
        }
        if start > 0 {
            assert(part[start - 1] == whole[shift + start - 1]);
        }
        if end < part.len() {
            assert(part[end] == whole[shift + end]);
        }
    }
}

/// Of two lists with a comma between them, one lists what either lists.
pub proof fn lemma_lists_with_a_comma_between(first: Seq<u8>, second: Seq<u8>, token: Seq<char>)
    ensures
        value_lists(first + seq![0x2cu8] + second, token) <==> value_lists(first, token)
            || value_lists(second, token),
{
    let whole = first + seq![0x2cu8] + second;
    let comma = first.len() as int;
    assert(whole[comma] == 0x2c);
    assert(whole.subrange(0, comma) == first);
    assert(whole.subrange(comma + 1, comma + 1 + second.len()) == second);
    if value_lists(first, token) {
        let (start, from, to, end) = choose|start: int, from: int, to: int, end: int|
            #[trigger] item_is(first, start, from, to, end, token);
        lemma_item_within(first, whole, 0, start, from, to, end, token);
    }
    if value_lists(second, token) {
        let (start, from, to, end) = choose|start: int, from: int, to: int, end: int|
            #[trigger] item_is(second, start, from, to, end, token);
        lemma_item_within(second, whole, comma + 1, start, from, to, end, token);
    }
    if value_lists(whole, token) {
        let (start, from, to, end) = choose|start: int, from: int, to: int, end: int|
            #[trigger] item_is(whole, start, from, to, end, token);
        if end <= comma {
            lemma_item_within(first, whole, 0, start, from, to, end, token);
        } else {
            assert(start > comma);
            let shift = comma + 1;
            lemma_item_within(
                second,
                whole,
                shift,
                start - shift,
                from - shift,
                to - shift,
                end - shift,
                token,
            );
        }
    }
}

/// A list of one item lists a word if and only if the item is that word, in whatever case and with
/// whatever blanks around it.
pub proof fn lemma_list_of_one_item(
    before: Seq<u8>,
    item: Seq<u8>,
    behind: Seq<u8>,
    token: Seq<char>,
)
    requires
        forall|i: int|
            0 <= i < before.len() ==> (#[trigger] before[i] == 0x20 || before[i] == 0x09
                || before[i] == 0x0a || before[i] == 0x0c || before[i] == 0x0d),
        forall|i: int|
            0 <= i < behind.len() ==> (#[trigger] behind[i] == 0x20 || behind[i] == 0x09
                || behind[i] == 0x0a || behind[i] == 0x0c || behind[i] == 0x0d),
        forall|i: int| 0 <= i < item.len() ==> #[trigger] item[i] != 0x2c,
        item.len() > 0 ==> item[0] != 0x20 && item[0] != 0x09 && item[0] != 0x0a && item[0] != 0x0c
            && item[0] != 0x0d,
        item.len() > 0 ==> item.last() != 0x20 && item.last() != 0x09 && item.last() != 0x0a
            && item.last() != 0x0c && item.last() != 0x0d,
        forall|i: int| 0 <= i < token.len() ==> 'a' <= #[trigger] token[i] <= 'z',
        token.len() > 0,
    ensures
        value_lists(before + item + behind, token) <==> item.len() == token.len() && forall|i: int|
            0 <= i < token.len() ==> (item[i] == (#[trigger] token[i]) as u8 || item[i] + 0x20
                == token[i] as u8),
{
    let whole = before + item + behind;
    let from = before.len() as int;
    let to = before.len() + item.len() as int;
    assert forall|i: int| 0 <= i < item.len() implies whole[from + i] == #[trigger] item[i] by {}
    assert forall|i: int| 0 <= i < whole.len() implies (i < from || i >= to ==> blank(
        #[trigger] whole[i],
    )) && whole[i] != 0x2c by {
        if i < from {
            assert(whole[i] == before[i]);
        } else if i < to {
            assert(whole[i] == item[i - from]);
        } else {
            assert(whole[i] == behind[i - to]);
        }
    }
    let same = item.len() == token.len() && forall|i: int|
        0 <= i < token.len() ==> (item[i] == (#[trigger] token[i]) as u8 || item[i] + 0x20
            == token[i] as u8);
    if same {
        assert(spells(whole, from, to, token)) by {
            assert forall|i: int| 0 <= i < token.len() implies lower(whole[from + i]) as char
                == #[trigger] token[i] by {
                assert(whole[from + i] == item[i]);
            }
        }
        assert(item_is(whole, 0, from, to, whole.len() as int, token));
    }
    if value_lists(whole, token) {
        let (start, first, last, end) = choose|start: int, first: int, last: int, end: int|
            #[trigger] item_is(whole, start, first, last, end, token);
        assert(start == 0) by {
            if start > 0 {
                assert(whole[start - 1] == 0x2c);
            }
        }
        assert(end == whole.len()) by {
            if end < whole.len() {
                assert(whole[end] == 0x2c);
            }
        }
        assert(lower(whole[first + 0]) as char == token[0]);
        assert(!blank(whole[first]));
        assert(from <= first < to);
        assert(first == from) by {
            if first > from {
                assert(whole[from] == item[0]);
                assert(blank(whole[from]));
            }
        }
        assert(last == to) by {
            if last < to {
                assert(whole[to - 1] == item[item.len() - 1]);
                assert(blank(whole[to - 1]));
            }
            if last > to {
                let i = token.len() - 1;
                assert(lower(whole[first + i]) as char == token[i]);
                assert(blank(whole[last - 1]));
            }
        }
        assert forall|i: int| 0 <= i < token.len() implies (item[i] == (#[trigger] token[i]) as u8
            || item[i] + 0x20 == token[i] as u8) by {
            assert(lower(whole[from + i]) as char == token[i]);
            assert(whole[from + i] == item[i]);
        }
    }
}

/// A text can be a header's value if and only if both parts of it can.
pub proof fn lemma_sendable_in_parts(first: Seq<char>, second: Seq<char>)
    ensures
        sendable(first + second) <==> sendable(first) && sendable(second),
{
    let whole = first + second;
    if sendable(whole) {
        assert forall|i: int| 0 <= i < first.len() implies sendable_char(#[trigger] first[i]) by {
            assert(whole[i] == first[i]);
        }
        assert forall|i: int| 0 <= i < second.len() implies sendable_char(#[trigger] second[i]) by {
            assert(whole[first.len() + i] == second[i]);
        }
    }
}

/// Of the texts of one character those can be a header's value that are no control character,
/// the tab excepted.
pub proof fn lemma_sendable_characters(c: char)
    ensures
        sendable(Seq::empty()),
        sendable(seq![c]) <==> (c as u32) == 9 || (c as u32) >= 32 && (c as u32) != 127,
{
    if sendable(seq![c]) {
        assert(sendable_char(seq![c][0]));
    }
}

} // verus!
