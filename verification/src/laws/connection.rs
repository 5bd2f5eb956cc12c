//! What becomes of connections, from the first byte on.
use super::binary::{is_signed, refused};
use super::line::{
    crlf_at, first_end, lemma_ends, lemma_keywords, lemma_v1_text, line_written, no_end,
    right_for,
};
use super::words::{are_words, ascii, lemma_spelled_fields, spelled};
use super::{
    accept_position, asks_for_more, fits, joined, law_connect_accept, lemma_joined_front,
    lemma_outcome, outcome,
};
use crate::accept::{
    calls_for, leaves, stage, v1_calls_for, Accepting, Acceptor, AcceptorView, Action, Stage,
    V1_TAG,
};
use crate::addr::SocketAddr;
use crate::buffer::contents;
use crate::codec::v2::SIGNATURE;
use crate::codec::{ProxyInfo, SocketType};
use crate::connect::Connector;
use crate::error::{utf8_fault, Error};
use crate::header::{eol_from, framing, Framing, HeaderFault};
use crate::proxy::{line_info, proxy_rest};
use bytes::BytesMut;
use vstd::prelude::*;
use vstd::utf8::{decode_utf8, valid_utf8};

verus! {

/// Whether bytes start as every version 1 header does.
pub open spec fn is_tagged(s: Seq<u8>) -> bool {
    s.len() >= 6 && s.take(6) == ascii("PROXY "@)
}

/// Whether a connection that starts with `s` is taken for one with a version 1 header.
pub open spec fn starts_v1(settings: AcceptorView, s: Seq<u8>) -> bool {
    settings.support_v1 && s.len() >= 15 && is_tagged(s)
}

/// Whether a connection that starts with `s` is taken for one with a version 2 header.
pub open spec fn starts_v2(settings: AcceptorView, s: Seq<u8>) -> bool {
    settings.support_v2 && s.len() >= 15 && is_signed(s) && !starts_v1(settings, s)
}

/// Whether an answer accepts the connection with the given addresses.
pub open spec fn accepts(
    answer: Result<Action, Error>,
    source: Option<SocketAddr>,
    destination: Option<SocketAddr>,
) -> bool {
    answer matches Ok(Action::Accepted { original_source, original_destination }) && original_source
        == source && original_destination == destination
}

/// Whether an answer accepts the connection, with whatever addresses.
pub open spec fn is_accepted(answer: Result<Action, Error>) -> bool {
    answer matches Ok(Action::Accepted { .. })
}

/// Whether an answer is what a decoded header calls for: acceptance with its addresses, or
/// its error.
pub open spec fn follows(answer: Result<Action, Error>, decoded: Result<Option<ProxyInfo>, Error>) -> bool {
    match decoded {
        Ok(Some(info)) => accepts(answer, info.original_source, info.original_destination),
        Ok(None) => answer == Ok::<Action, Error>(Action::Read),
        Err(e) => answer == Err::<Action, Error>(e),
    }
}

proof fn lemma_tags(s: Seq<u8>)
    ensures
        s.len() >= 15 ==> (is_tagged(s) <==> s.take(6) == V1_TAG@),
        s.len() >= 15 ==> (is_signed(s) <==> s.take(12) == SIGNATURE@),
{
    reveal_strlit("PROXY ");
    assert(ascii("PROXY "@) =~= V1_TAG@);
    assert(SIGNATURE@ =~= seq![
        0x0du8, 0x0au8, 0x0du8, 0x0au8, 0x00u8, 0x0du8, 0x0au8, 0x51u8, 0x55u8, 0x49u8, 0x54u8, 0x0au8,
    ]);
}

/// Before there is enough for a header nothing is decided, unless the connection ends:
/// then it is passed on as it is, or refused where a header is required.
pub proof fn law_step_short(
    accepting: &mut Accepting,
    buf: &mut BytesMut,
    ended: bool,
    answer: Result<Action, Error>,
)
    requires
        call_ensures(Accepting::step, (accepting, buf, ended), answer),
        old(accepting).position() is None,
        contents(*old(buf)).len() < 15,
    ensures
        contents(*final(buf)) == contents(*old(buf)),
        final(accepting).position() is None,
        final(accepting).settings() == old(accepting).settings(),
        !ended ==> answer == Ok::<Action, Error>(Action::Read),
        ended && old(accepting).settings().require_proxy_header ==> refused(
            answer,
            "Message too short for proxy protocol"@,
        ),
        ended && !old(accepting).settings().require_proxy_header ==> accepts(answer, None, None),
{
}

/// A connection that ends within a version 1 header is refused, whatever is required.
pub proof fn law_step_ended_within_header(
    accepting: &mut Accepting,
    buf: &mut BytesMut,
    answer: Result<Action, Error>,
)
    requires
        call_ensures(Accepting::step, (accepting, buf, true), answer),
        old(accepting).position() is Some,
    ensures
        refused(answer, "Incomplete V1 header"@),
        contents(*final(buf)) == contents(*old(buf)),
{
}

/// A connection that does not start with a version 1 header is passed on as it is, or
/// refused where a header is required; one that starts with a version 2 header is not
/// supported.
pub proof fn law_step_without_header(
    accepting: &mut Accepting,
    buf: &mut BytesMut,
    ended: bool,
    answer: Result<Action, Error>,
)
    requires
        call_ensures(Accepting::step, (accepting, buf, ended), answer),
        old(accepting).position() is None,
        contents(*old(buf)).len() >= 15,
        !starts_v1(old(accepting).settings(), contents(*old(buf))),
    ensures
        ({
            let settings = old(accepting).settings();
            let v2 = starts_v2(settings, contents(*old(buf)));
            &&& v2 ==> answer == Ok::<Action, Error>(Action::UnsupportedV2)
            &&& !v2 && settings.require_proxy_header ==> refused(
                answer,
                "Proxy protocol is required"@,
            )
            &&& !v2 && !settings.require_proxy_header ==> accepts(answer, None, None)
        }),
        contents(*final(buf)) == contents(*old(buf)),
        final(accepting).position() is None,
        final(accepting).settings() == old(accepting).settings(),
{
    lemma_tags(contents(*old(buf)));
}

/// Once a connection is taken for one with a version 1 header, more is read until its line
/// has ended, or so much has come that it should have.
pub proof fn law_step_waits_for_end(
    accepting: &mut Accepting,
    buf: &mut BytesMut,
    ended: bool,
    answer: Result<Action, Error>,
    from: int,
)
    requires
        call_ensures(Accepting::step, (accepting, buf, ended), answer),
        0 <= from <= contents(*old(buf)).len(),
        old(accepting).position() == Some(from) && !ended || old(accepting).position() is None && from
            == 0 && starts_v1(old(accepting).settings(), contents(*old(buf))),
        no_end(contents(*old(buf)), from),
    ensures
        ({
            let s = contents(*old(buf));
            &&& s.len() < 536 ==> answer == Ok::<Action, Error>(Action::Read)
            &&& s.len() >= 536 ==> refused(answer, "Proxy header v1 does not contain EOL"@)
            &&& contents(*final(buf)) == s
            &&& s.len() < 536 ==> final(accepting).position() == Some(
                if s.len() == 0 {
                    0
                } else {
                    s.len() - 1
                },
            )
            &&& s.len() >= 536 ==> final(accepting).position() == Some(from)
        }),
        final(accepting).settings() == old(accepting).settings(),
{
    lemma_tags(contents(*old(buf)));
    lemma_ends(contents(*old(buf)), from);
}

/// Once the line of a version 1 header has ended, the connection is accepted with the
/// addresses that its words tell, or refused for what is wrong with them; the line leaves
/// the stream unless it is to be passed on.
pub proof fn law_step_line(
    accepting: &mut Accepting,
    buf: &mut BytesMut,
    ended: bool,
    answer: Result<Action, Error>,
    from: int,
    e: int,
    words: Seq<Seq<u8>>,
)
    requires
        call_ensures(Accepting::step, (accepting, buf, ended), answer),
        0 <= from,
        old(accepting).position() == Some(from) && !ended || old(accepting).position() is None && from
            == 0 && starts_v1(old(accepting).settings(), contents(*old(buf))),
        first_end(contents(*old(buf)), from, e),
        contents(*old(buf)).take(e) == spelled(words, ' ' as u8),
        words.len() > 0,
        are_words(words, ' ' as u8),
    ensures
        ({
            let s = contents(*old(buf));
            let line = s.take(e);
            let rest = contents(*final(buf));
            let pass = old(accepting).settings().pass_proxy_header;
            &&& pass ==> rest == s
            &&& !pass && is_accepted(answer) ==> rest == s.skip(e + 2)
            &&& !valid_utf8(line) ==> rest == s && answer == Err::<Action, Error>(
                Error::Utf8(utf8_fault(line)),
            )
            &&& valid_utf8(line) ==> exists|decoded: Result<Option<ProxyInfo>, Error>, taken: bool|
                #[trigger] right_for(words, decode_utf8(line), decoded, taken) && follows(
                    answer,
                    decoded,
                ) && (!pass ==> rest == if taken {
                    s.skip(e + 2)
                } else {
                    s
                })
        }),
        final(accepting).settings() == old(accepting).settings(),
{
    let s = contents(*old(buf));
    let line = s.take(e);
    let pass = old(accepting).settings().pass_proxy_header;
    lemma_tags(s);
    lemma_ends(s, from);
    assert(s.skip(e + 2).len() < s.len());
    assert(stage(old(accepting).settings(), old(accepting).position(), s, ended) == (Stage::V1 {
        from,
    }));
    if valid_utf8(line) {
        assert(framing(s, from) == (Framing::Line { eol: e }));
        let (decoded, taken) = lemma_line_answer(s, e, words, answer, pass);
        assert(right_for(words, decode_utf8(line), decoded, taken));
    }
}

/// What a line that has ended calls for, over its words.
proof fn lemma_line_answer(
    s: Seq<u8>,
    e: int,
    words: Seq<Seq<u8>>,
    answer: Result<Action, Error>,
    pass: bool,
) -> (r: (Result<Option<ProxyInfo>, Error>, bool))
    requires
        s.take(e) == spelled(words, ' ' as u8),
        words.len() > 0,
        are_words(words, ' ' as u8),
        v1_calls_for(s, Framing::Line { eol: e }, answer),
    ensures
        right_for(words, decode_utf8(s.take(e)), r.0, r.1),
        follows(answer, r.0),
        is_accepted(answer) ==> r.1,
        proxy_rest(s, Framing::Line { eol: e }, pass) == if r.1 && !pass {
            s.skip(e + 2)
        } else {
            s
        },
{
    lemma_spelled_fields(words, ' ' as u8);
    lemma_keywords();
    let info = line_info(s.take(e));
    let decoded: Result<Option<ProxyInfo>, Error> = match (info, answer) {
        (Ok(i), _) => Ok(Some(i)),
        (Err(_), Err(e)) => Err(e),
        _ => arbitrary(),
    };
    let taken = match info {
        Ok(_) => true,
        Err(f) => f == HeaderFault::Invalid,
    };
    (decoded, taken)
}

proof fn lemma_outcome_found(
    settings: AcceptorView,
    position: Option<int>,
    s: Seq<u8>,
    pieces: Seq<Seq<u8>>,
)
    requires
        fits(settings, position, s),
    ensures
        ({
            let o = outcome(settings, position, s, pieces);
            &&& o.held + o.unread == s + joined(pieces)
            &&& !asks_for_more(o.stage, o.held)
            &&& o.stage matches Stage::V1 { from } ==> stage(settings, None, o.held, false) is V1
                && framing(o.held, from) == framing(o.held, 0)
            &&& settings.require_proxy_header ==> !(o.stage is Pass)
            &&& o.stage is V2 ==> stage(settings, None, o.held, false) is V2
        }),
    decreases pieces.len(),
{
    let now = stage(settings, position, s, false);
    if asks_for_more(now, s) {
        if pieces.len() == 0 {
            assert(joined(pieces) =~= seq![]);
        } else {
            let p = pieces[0];
            lemma_joined_front(pieces);
            assert(s + joined(pieces) =~= (s + p) + joined(pieces.skip(1)));
            if now is V1 {
                assert((s + p).take(6) =~= s.take(6));
                super::law_v1_pieces(s, 0, p);
            }
            lemma_outcome_found(
                settings,
                accept_position(settings, position, s),
                s + p,
                pieces.skip(1),
            );
        }
    }
}

/// Where a header is required, a connection is accepted only if it starts with the tag and
/// its first line has ended and tells, in UTF-8 words, the addresses that it is accepted
/// with. Every other connection is refused in the end, or starts with a version 2 header.
pub proof fn law_required_is_there(
    settings: AcceptorView,
    pieces: Seq<Seq<u8>>,
    answer: Result<Action, Error>,
)
    requires
        settings.require_proxy_header,
        ({
            let o = outcome(settings, None, seq![], pieces);
            calls_for(o.stage, o.held, answer)
        }),
    ensures
        ({
            let all = joined(pieces);
            &&& answer is Err || is_accepted(answer) || answer == Ok::<Action, Error>(
                Action::UnsupportedV2,
            ) && starts_v2(settings, all)
            &&& is_accepted(answer) ==> starts_v1(settings, all) && exists|
                e: int,
                words: Seq<Seq<u8>>,
                info: ProxyInfo,
            |
                {
                    &&& first_end(all, 0, e)
                    &&& all.take(e) == #[trigger] spelled(words, ' ' as u8)
                    &&& words.len() > 0 && are_words(words, ' ' as u8)
                    &&& valid_utf8(all.take(e))
                    &&& #[trigger] right_for(
                        words,
                        decode_utf8(all.take(e)),
                        Ok(Some(info)),
                        true,
                    )
                    &&& accepts(answer, info.original_source, info.original_destination)
                    &&& #[trigger] crlf_at(all, e)
                }
        }),
{
    let o = outcome(settings, None, seq![], pieces);
    let all = joined(pieces);
    let s = o.held;
    assert(seq![] + all =~= all);
    lemma_outcome_found(settings, None, seq![], pieces);
    assert(all == s + o.unread);
    lemma_tags(s);
    lemma_tags(all);
    if s.len() >= 15 {
        assert(all.take(6) =~= s.take(6));
        assert(all.take(12) =~= s.take(12));
    }
    if is_accepted(answer) {
        assert(o.stage is V1);
        lemma_ends(s, 0);
        let e = eol_from(s, 0)->0;
        let words = crate::text::fields(s.take(e), ' ' as u8);
        super::words::lemma_fields_are_words(s.take(e), ' ' as u8);
        lemma_keywords();
        let info = line_info(s.take(e))->Ok_0;
        assert(all.take(e) =~= s.take(e));
        assert(all[e] == s[e] && all[e + 1] == s[e + 1]);
        assert forall|j: int| 0 <= j < e implies !#[trigger] crlf_at(all, j) by {
            assert(!crlf_at(s, j));
            assert(all[j] == s[j] && all[j + 1] == s[j + 1]);
        }
        assert(first_end(all, 0, e));
        assert(crlf_at(all, e));
        assert(right_for(words, decode_utf8(all.take(e)), Ok(Some(info)), true));
        assert(spelled(words, ' ' as u8) == all.take(e));
    }
}

/// A connection that starts with the tag of version 1 and ends before a line has is
/// refused, whatever is required and in whatever pieces it comes.
pub proof fn law_half_header_is_refused(
    settings: AcceptorView,
    pieces: Seq<Seq<u8>>,
    answer: Result<Action, Error>,
)
    requires
        starts_v1(settings, joined(pieces)),
        no_end(joined(pieces), 0),
        ({
            let o = outcome(settings, None, seq![], pieces);
            calls_for(o.stage, o.held, answer)
        }),
    ensures
        joined(pieces).len() < 536 ==> refused(answer, "Incomplete V1 header"@),
        joined(pieces).len() >= 536 ==> refused(answer, "Proxy header v1 does not contain EOL"@),
{
    let all = joined(pieces);
    lemma_tags(all);
    lemma_ends(all, 0);
    assert(seq![] + all =~= all);
    lemma_outcome(settings, None, seq![], pieces, answer);
}

/// A connection without a header of a supported version, in whatever pieces it comes, is
/// passed on whole, or refused where a header is required.
pub proof fn law_passed_on_whole(
    settings: AcceptorView,
    pieces: Seq<Seq<u8>>,
    answer: Result<Action, Error>,
)
    requires
        !starts_v1(settings, joined(pieces)),
        !starts_v2(settings, joined(pieces)),
        ({
            let o = outcome(settings, None, seq![], pieces);
            calls_for(o.stage, o.held, answer)
        }),
    ensures
        settings.require_proxy_header ==> refused(
            answer,
            if joined(pieces).len() < 15 {
                "Message too short for proxy protocol"@
            } else {
                "Proxy protocol is required"@
            },
        ),
        !settings.require_proxy_header ==> accepts(answer, None, None) && ({
            let o = outcome(settings, None, seq![], pieces);
            leaves(o.stage, o.held, settings.pass_proxy_header) + o.unread == joined(pieces)
        }),
{
    let all = joined(pieces);
    lemma_tags(all);
    assert(seq![] + all =~= all);
    lemma_outcome(settings, None, seq![], pieces, answer);
}

/// Two addresses of one family make the information of a connection from the first to the
/// second; none at all make that nothing is known; and all else is an error.
pub proof fn law_info_of_addresses(
    source: Option<SocketAddr>,
    destination: Option<SocketAddr>,
    info: Result<ProxyInfo, Error>,
)
    requires
        call_ensures(
            <ProxyInfo as TryFrom<(Option<SocketAddr>, Option<SocketAddr>)>>::try_from,
            ((source, destination),),
            info,
        ),
    ensures
        ({
            let v4 = source is Some && source->0 is V4 && destination is Some && destination->0 is V4;
            let v6 = source is Some && source->0 is V6 && destination is Some && destination->0 is V6;
            let none = source is None && destination is None;
            &&& info is Ok <==> v4 || v6 || none
            &&& info matches Ok(i) ==> i.original_source == source && i.original_destination
                == destination && i.socket_type == if v4 {
                SocketType::Ipv4
            } else if v6 {
                SocketType::Ipv6
            } else {
                SocketType::Unknown
            }
            &&& info is Err ==> refused(info, "Inconsistent source and destination addresses"@)
        }),
{
}

/// Information is consistent where its addresses are there, or not, as its type says.
pub proof fn law_consistent(info: ProxyInfo)
    ensures
        info.consistent() <==> match info.socket_type {
            SocketType::Ipv4 => (info.original_source matches Some(SocketAddr::V4(_))) && (
            info.original_destination matches Some(SocketAddr::V4(_))),
            SocketType::Ipv6 => (info.original_source matches Some(SocketAddr::V6(_))) && (
            info.original_destination matches Some(SocketAddr::V6(_))),
            SocketType::Unknown => info.original_source is None && info.original_destination is None,
        },
{
}

/// The header for a connection names where it came from first and where it went to second.
pub proof fn law_header_written(
    connector: &Connector,
    source: Option<SocketAddr>,
    destination: Option<SocketAddr>,
    data: Result<BytesMut, Error>,
)
    requires
        call_ensures(Connector::header_for, (connector, source, destination), data),
    ensures
        match (source, destination) {
            (Some(SocketAddr::V4(_)), Some(SocketAddr::V4(_))) => data matches Ok(data) && contents(
                data,
            ) == line_written("PROXY TCP4 "@, source->0, destination->0),
            (Some(SocketAddr::V6(_)), Some(SocketAddr::V6(_))) => data matches Ok(data) && contents(
                data,
            ) == line_written("PROXY TCP6 "@, source->0, destination->0),
            (None, None) => data matches Ok(data) && contents(data) == ascii("PROXY UNKNOWN"@)
                + seq![13u8, 10u8],
            _ => refused(data, "Inconsistent source and destination addresses"@),
        },
{
    if let Some(info) = ProxyInfo::of_addresses(source, destination) {
        lemma_v1_text(info);
    }
}

/// What a connector sends for a connection from one address to another of its family, or
/// for one of which nothing is known, an acceptor takes for a connection from the one to
/// the other, and what follows stays in the stream.
pub proof fn law_ends_are_kept(
    connector: &Connector,
    source: Option<SocketAddr>,
    destination: Option<SocketAddr>,
    data: Result<BytesMut, Error>,
    rest: Seq<u8>,
    accepting: &mut Accepting,
    buf: &mut BytesMut,
    answer: Result<Action, Error>,
)
    requires
        call_ensures(Connector::header_for, (connector, source, destination), data),
        (source is None && destination is None) || (source is Some && destination is Some && (source->0
            is V4 <==> destination->0 is V4)),
        source matches Some(SocketAddr::V6(a)) ==> a.flowinfo == 0 && a.scope_id == 0,
        destination matches Some(SocketAddr::V6(a)) ==> a.flowinfo == 0 && a.scope_id == 0,
        old(accepting).settings().support_v1,
        old(accepting).position() is None,
        data is Ok ==> contents(*old(buf)) == contents(data->Ok_0) + rest,
        call_ensures(Accepting::step, (accepting, buf, false), answer),
    ensures
        data is Ok,
        accepts(answer, source, destination),
        contents(*final(buf)) == if old(accepting).settings().pass_proxy_header {
            contents(*old(buf))
        } else {
            rest
        },
{
    let info = ProxyInfo::of_addresses(source, destination)->0;
    law_connect_accept(old(accepting).settings(), info, rest);
}

/// A connector has an answer for all but the headers of version 2 that it would send.
pub proof fn law_supports(
    connector: &Connector,
    source: Option<SocketAddr>,
    destination: Option<SocketAddr>,
    supported: bool,
)
    requires
        call_ensures(Connector::supports, (connector, source, destination), supported),
    ensures
        !supported <==> connector.uses_v2() && ((source is None && destination is None) || (source
            is Some && destination is Some && (source->0 is V4 <==> destination->0 is V4))),
{
}

/// A connection can be stepped on with every buffer that is not shorter than it was left,
/// ended or not, and a connector asked for every pair of addresses that it supports.
pub proof fn law_any_connection(
    accepting: &mut Accepting,
    buf: &mut BytesMut,
    ended: bool,
    connector: &Connector,
    source: Option<SocketAddr>,
    destination: Option<SocketAddr>,
    supported: bool,
)
    requires
        call_ensures(Connector::supports, (connector, source, destination), supported),
    ensures
        old(accepting).wf() && (old(accepting).position() matches Some(from) ==> from <= contents(
            *old(buf),
        ).len()) ==> call_requires(Accepting::step, (accepting, buf, ended)),
        supported ==> call_requires(Connector::header_for, (connector, source, destination)),
{
}

/// A connector sends headers of version 1 unless it is told otherwise.
pub proof fn law_connector(first: Connector, use_v2: bool, second: Connector)
    requires
        call_ensures(Connector::new, (), first),
        call_ensures(Connector::use_v2, (first, use_v2), second),
    ensures
        !first.uses_v2(),
        second.uses_v2() == use_v2,
{
}

/// An acceptor looks for headers of both versions, asks for none and takes them from the
/// stream; and each setting changes that one thing.
pub proof fn law_acceptor_settings(
    first: Acceptor,
    a: Acceptor,
    on: bool,
    passing: Acceptor,
    requiring: Acceptor,
    v1: Acceptor,
    v2: Acceptor,
    accepting: Accepting,
)
    requires
        call_ensures(Acceptor::new, (), first),
        call_ensures(Acceptor::pass_proxy_header, (a, on), passing),
        call_ensures(Acceptor::require_proxy_header, (a, on), requiring),
        call_ensures(Acceptor::support_v1, (a, on), v1),
        call_ensures(Acceptor::support_v2, (a, on), v2),
        call_ensures(Acceptor::accept, (a,), accepting),
    ensures
        first@.support_v1 && first@.support_v2,
        !first@.pass_proxy_header && !first@.require_proxy_header,
        passing@ == (AcceptorView { pass_proxy_header: on, ..a@ }),
        requiring@ == (AcceptorView { require_proxy_header: on, ..a@ }),
        v1@ == (AcceptorView { support_v1: on, ..a@ }),
        v2@ == (AcceptorView { support_v2: on, ..a@ }),
        accepting.settings() == a@,
        accepting.position() is None,
{
}

} // verus!
