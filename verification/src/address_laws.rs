//! What holds of every address that a request names.

use vstd::prelude::*;

use crate::address;
use crate::address::HeadView;
use crate::text;
use crate::text_laws;

verus! {

/// The first header of a name says something.
pub open spec fn first_says(head: HeadView, name: Seq<char>, value: Seq<char>) -> bool {
    exists|at: int|
        0 <= at < head.headers.len() && #[trigger] head.headers[at] == (name, Some(value))
            && forall|i: int| 0 <= i < at ==> (#[trigger] head.headers[i]).0 != name
}

/// There is no header of a name.
pub open spec fn is_absent(head: HeadView, name: Seq<char>) -> bool {
    forall|i: int| 0 <= i < head.headers.len() ==> (#[trigger] head.headers[i]).0 != name
}

/// The first header of a name cannot be read.
pub open spec fn is_unreadable(head: HeadView, name: Seq<char>) -> bool {
    exists|at: int|
        0 <= at < head.headers.len() && #[trigger] head.headers[at] == (name, None::<Seq<char>>)
            && forall|i: int| 0 <= i < at ==> (#[trigger] head.headers[i]).0 != name
}

/// The headers of a name say nothing: there is none, or the first cannot be read.
pub open spec fn is_silent(head: HeadView, name: Seq<char>) -> bool {
    is_absent(head, name) || is_unreadable(head, name)
}

proof fn first_is_read(head: HeadView, name: Seq<char>, at: int, from: int)
    requires
        0 <= from <= at < head.headers.len(),
        head.headers[at].0 == name,
        forall|i: int| 0 <= i < at ==> (#[trigger] head.headers[i]).0 != name,
    ensures
        address::header_from(head.headers, name, from) == head.headers[at].1,
        address::entry_from(head.headers, name, from) == Some(head.headers[at].1),
    decreases at - from,
{
    if from < at {
        first_is_read(head, name, at, from + 1);
    }
}

proof fn silence_is_read(head: HeadView, name: Seq<char>, from: int)
    requires
        0 <= from <= head.headers.len(),
        is_absent(head, name),
    ensures
        address::header_from(head.headers, name, from) is None,
        address::entry_from(head.headers, name, from) is None,
    decreases head.headers.len() - from,
{
    if from < head.headers.len() {
        assert(head.headers[from].0 != name);
        silence_is_read(head, name, from + 1);
    }
}

/// A header is read by its name, and of several of one name the first counts.
pub proof fn first_header_counts(head: HeadView, name: Seq<char>, value: Seq<char>)
    ensures
        first_says(head, name, value) ==> head.header(name) == Some(value) && head.entry(name)
            == Some(Some(value)),
        is_absent(head, name) ==> head.header(name) is None && head.entry(name) is None,
        is_unreadable(head, name) ==> head.header(name) is None && head.entry(name) == Some(
            None::<Seq<char>>,
        ),
{
    if first_says(head, name, value) {
        let at = choose|at: int|
            0 <= at < head.headers.len() && #[trigger] head.headers[at] == (name, Some(value))
                && forall|i: int| 0 <= i < at ==> (#[trigger] head.headers[i]).0 != name;
        first_is_read(head, name, at, 0);
    }
    if is_absent(head, name) {
        silence_is_read(head, name, 0);
    }
    if is_unreadable(head, name) {
        let at = choose|at: int|
            0 <= at < head.headers.len() && #[trigger] head.headers[at] == (
                name,
                None::<Seq<char>>,
            ) && forall|i: int| 0 <= i < at ==> (#[trigger] head.headers[i]).0 != name;
        first_is_read(head, name, at, 0);
    }
}

/// The first element of a list: what stands before the first comma, without the white
/// space around it.
pub open spec fn leads_with(value: Seq<char>, item: Seq<char>) -> bool {
    exists|lead: Seq<char>, trail: Seq<char>, rest: Seq<char>|
        value == #[trigger] (lead + item + trail + rest) && text_laws::blank(lead)
            && text_laws::blank(trail) && text_laws::tight(item) && !item.contains(',') && (
        rest.len() == 0 || rest[0] == ',')
}

proof fn first_element_is_read(value: Seq<char>, item: Seq<char>)
    requires
        leads_with(value, item),
    ensures
        text::trimmed(address::upto(value, ',')) == item,
{
    let (lead, trail, rest) = choose|lead: Seq<char>, trail: Seq<char>, rest: Seq<char>|
        value == #[trigger] (lead + item + trail + rest) && text_laws::blank(lead)
            && text_laws::blank(trail) && text_laws::tight(item) && !item.contains(',') && (
        rest.len() == 0 || rest[0] == ',');
    let first = lead + item + trail;
    let n = first.len() as int;
    assert forall|i: int| 0 <= i < n implies value[i] != ',' by {
        if i < lead.len() {
            assert(value[i] == lead[i]);
            assert(text::is_space(lead[i]));
        } else if i < lead.len() + item.len() {
            assert(value[i] == item[i - lead.len()]);
        } else {
            assert(value[i] == trail[i - lead.len() - item.len()]);
            assert(text::is_space(trail[i - lead.len() - item.len()]));
        }
    }
    text::index_bounds(value, ',', 0);
    let p = text::index_from(value, ',', 0);
    if p > n {
        assert(value[n] == rest[0]);
    }
    assert(value.take(n) =~= first);
    text_laws::trimming_leaves_the_core(lead, item, trail);
}

/// The scheme that a request is known to have come by: what a proxy says first, else
/// what its own address says, else `http`.
pub open spec fn came_by(head: HeadView, scheme: Seq<char>) -> bool {
    ||| exists|value: Seq<char>| #[trigger]
        first_says(head, "x-forwarded-proto"@, value) && leads_with(value, scheme)
    ||| is_silent(head, "x-forwarded-proto"@) && head.scheme == Some(scheme)
    ||| is_silent(head, "x-forwarded-proto"@) && head.scheme is None && scheme == "http"@
}

/// The host that a request is known to have been sent to: what a proxy says first,
/// else what its `Host` header says, and only without one the authority of its own
/// address.
pub open spec fn sent_to(head: HeadView, host: Seq<char>) -> bool {
    ||| exists|value: Seq<char>| #[trigger]
        first_says(head, "x-forwarded-host"@, value) && leads_with(value, host)
    ||| is_silent(head, "x-forwarded-host"@) && exists|value: Seq<char>| #[trigger]
        first_says(head, "host"@, value) && leads_with(value, host)
    ||| is_silent(head, "x-forwarded-host"@) && is_silent(head, "host"@)
        && head.authority is Some && leads_with(head.authority->0, host)
}

/// The path that a proxy serves this server under, without the slashes around it.
pub open spec fn served_under(head: HeadView, path: Seq<char>) -> bool {
    ||| is_silent(head, "x-forwarded-prefix"@) && path.len() == 0
    ||| exists|value: Seq<char>, lead: Seq<char>, trail: Seq<char>|
        #![trigger first_says(head, "x-forwarded-prefix"@, value), leads_with(value, lead + path + trail)]
        first_says(head, "x-forwarded-prefix"@, value) && leads_with(value, lead + path + trail)
            && text_laws::run_of(lead, '/') && text_laws::run_of(trail, '/') && (path.len() > 0
            ==> path[0] != '/' && path.last() != '/')
}

proof fn scheme_is_read(head: HeadView, scheme: Seq<char>)
    requires
        came_by(head, scheme),
    ensures
        scheme == (match address::first_element(head.header("x-forwarded-proto"@)) {
            Some(said) => said,
            None => match head.scheme {
                Some(own) => own,
                None => "http"@,
            },
        }),
{
    if is_silent(head, "x-forwarded-proto"@) {
        first_header_counts(head, "x-forwarded-proto"@, scheme);
        if exists|value: Seq<char>| #[trigger]
            first_says(head, "x-forwarded-proto"@, value) && leads_with(value, scheme) {
            let value = choose|value: Seq<char>| #[trigger]
                first_says(head, "x-forwarded-proto"@, value) && leads_with(value, scheme);
            first_header_counts(head, "x-forwarded-proto"@, value);
        }
    } else {
        let value = choose|value: Seq<char>| #[trigger]
            first_says(head, "x-forwarded-proto"@, value) && leads_with(value, scheme);
        first_header_counts(head, "x-forwarded-proto"@, value);
        first_element_is_read(value, scheme);
    }
}

proof fn host_is_read(head: HeadView, host: Seq<char>)
    requires
        sent_to(head, host),
    ensures
        address::requested_host(head) is Some,
        text::trimmed(address::upto(address::requested_host(head)->0, ',')) == host,
{
    let proxy = "x-forwarded-host"@;
    if exists|value: Seq<char>| #[trigger] first_says(head, proxy, value) && leads_with(value, host) {
        let value = choose|value: Seq<char>| #[trigger]
            first_says(head, proxy, value) && leads_with(value, host);
        first_header_counts(head, proxy, value);
        first_element_is_read(value, host);
    } else {
        first_header_counts(head, proxy, host);
        if exists|value: Seq<char>| #[trigger]
            first_says(head, "host"@, value) && leads_with(value, host) {
            let value = choose|value: Seq<char>| #[trigger]
                first_says(head, "host"@, value) && leads_with(value, host);
            first_header_counts(head, "host"@, value);
            first_element_is_read(value, host);
        } else {
            first_header_counts(head, "host"@, host);
            first_element_is_read(head.authority->0, host);
        }
    }
}

proof fn path_is_read(head: HeadView, path: Seq<char>)
    requires
        served_under(head, path),
    ensures
        path == text::end_stripped(
            text::start_stripped(
                match address::first_element(head.header("x-forwarded-prefix"@)) {
                    Some(prefix) => prefix,
                    None => Seq::empty(),
                },
                '/',
            ),
            '/',
        ),
{
    let name = "x-forwarded-prefix"@;
    if is_silent(head, name) && path.len() == 0 {
        first_header_counts(head, name, path);
        assert(path =~= Seq::empty());
    } else {
        let (value, lead, trail) = choose|value: Seq<char>, lead: Seq<char>, trail: Seq<char>|
            #![trigger first_says(head, name, value), leads_with(value, lead + path + trail)]
            first_says(head, name, value) && leads_with(value, lead + path + trail)
                && text_laws::run_of(lead, '/') && text_laws::run_of(trail, '/') && (path.len() > 0
                ==> path[0] != '/' && path.last() != '/');
        first_header_counts(head, name, value);
        let whole = lead + path + trail;
        first_element_is_read(value, whole);
        if path.len() == 0 {
            assert(text_laws::run_of(whole, '/')) by {
                assert forall|i: int| 0 <= i < whole.len() implies #[trigger] whole[i] == '/' by {
                    if i < lead.len() {
                        assert(whole[i] == lead[i]);
                    } else {
                        assert(whole[i] == trail[i - lead.len()]);
                    }
                }
            }
            text_laws::stripping_leaves_the_core(path, whole, '/');
            assert(whole + path =~= whole);
            assert(text::start_stripped(whole, '/') == path);
        } else {
            text_laws::stripping_leaves_the_core(path + trail, lead, '/');
            assert((path + trail)[0] == path[0]);
            assert(lead + (path + trail) =~= whole);
            text_laws::stripping_leaves_the_core(path, trail, '/');
        }
    }
}

/// Without an override and without a `Forwarded` header a request names the address
/// that its `Host` header says, behind the scheme it came by, and before the path a
/// proxy serves this server under. What a proxy says of the host comes first, and
/// only without both does the authority of the request's own address count.
pub proof fn the_host_is_named(
    head: HeadView,
    scheme: Seq<char>,
    host: Seq<char>,
    path: Seq<char>,
)
    requires
        is_silent(head, "x-vibrev-external-base"@),
        is_silent(head, "forwarded"@),
        came_by(head, scheme),
        sent_to(head, host),
        served_under(head, path),
    ensures
        address::candidate(head) == Some(
            if path.len() == 0 {
                scheme + "://"@ + host
            } else {
                scheme + "://"@ + host + "/"@ + path
            },
        ),
{
    first_header_counts(head, "x-vibrev-external-base"@, host);
    first_header_counts(head, "forwarded"@, host);
    scheme_is_read(head, scheme);
    host_is_read(head, host);
    path_is_read(head, path);
}

/// A request that only its own `Host` header speaks for names `http://` and that
/// host, whatever its own address says.
pub proof fn a_plain_request_names_its_host(head: HeadView, host: Seq<char>)
    requires
        first_says(head, "host"@, host),
        text_laws::tight(host),
        !host.contains(','),
        is_silent(head, "x-vibrev-external-base"@),
        is_silent(head, "forwarded"@),
        is_silent(head, "x-forwarded-host"@),
        is_silent(head, "x-forwarded-proto"@),
        is_silent(head, "x-forwarded-prefix"@),
    ensures
        address::candidate(head) == Some(
            (match head.scheme {
                Some(scheme) => scheme,
                None => "http"@,
            }) + "://"@ + host,
        ),
{
    let none = Seq::<char>::empty();
    assert(host =~= none + host + none + none);
    assert(leads_with(host, host));
    let scheme = match head.scheme {
        Some(scheme) => scheme,
        None => "http"@,
    };
    assert(came_by(head, scheme));
    assert(sent_to(head, host));
    assert(served_under(head, none));
    the_host_is_named(head, scheme, host, none);
}

/// An override counts as it stands, whatever else a request says.
pub proof fn an_override_is_taken_as_it_stands(head: HeadView, base: Seq<char>)
    requires
        first_says(head, "x-vibrev-external-base"@, base),
    ensures
        address::candidate(head) == Some(base),
{
    first_header_counts(head, "x-vibrev-external-base"@, base);
}

/// A request that says nothing of where it was sent names no address.
pub proof fn nothing_said_names_nothing(head: HeadView)
    requires
        is_silent(head, "x-vibrev-external-base"@),
        is_silent(head, "forwarded"@),
        is_silent(head, "x-forwarded-host"@),
        is_silent(head, "host"@),
        head.authority is None,
    ensures
        address::candidate(head) is None,
{
    let none = Seq::<char>::empty();
    first_header_counts(head, "x-vibrev-external-base"@, none);
    first_header_counts(head, "forwarded"@, none);
    first_header_counts(head, "x-forwarded-host"@, none);
    first_header_counts(head, "host"@, none);
}

// ---------------------------------------------------------------------------
// Forwarded
// ---------------------------------------------------------------------------

/// A parameter of a `Forwarded` header: a name in any letter case, an equals sign and
/// a value that may stand in quotes, with white space around any of them.
pub open spec fn parameter_says(parameter: Seq<char>, name: Seq<char>, value: Seq<char>) -> bool {
    exists|written: Seq<char>, a: Seq<char>, b: Seq<char>, c: Seq<char>, d: Seq<char>, quoted: bool|
        parameter == #[trigger] spelled_parameter(written, value, a, b, c, d, quoted)
            && text::ascii_lowered(written) == name && text_laws::tight(written)
            && !written.contains('=') && text_laws::blank(a) && text_laws::blank(b)
            && text_laws::blank(c) && text_laws::blank(d) && !value.contains('"')
            && text_laws::tight(value) && written.len() > 0 && value.len() > 0
}

/// A parameter as it is written.
pub open spec fn spelled_parameter(
    written: Seq<char>,
    value: Seq<char>,
    a: Seq<char>,
    b: Seq<char>,
    c: Seq<char>,
    d: Seq<char>,
    quoted: bool,
) -> Seq<char> {
    let mark = if quoted {
        seq!['"']
    } else {
        Seq::empty()
    };
    a + written + b + seq!['='] + c + (mark + value + mark) + d
}

proof fn parameter_is_read(
    said: address::Forwarded,
    parameter: Seq<char>,
    name: Seq<char>,
    value: Seq<char>,
)
    requires
        parameter_says(parameter, name, value),
    ensures
        said.read(parameter) == (if name == "proto"@ {
            address::Forwarded { scheme: Some(value), host: said.host }
        } else if name == "host"@ {
            address::Forwarded { scheme: said.scheme, host: Some(value) }
        } else {
            said
        }),
{
    let (written, a, b, c, d, quoted) = choose|
        written: Seq<char>,
        a: Seq<char>,
        b: Seq<char>,
        c: Seq<char>,
        d: Seq<char>,
        quoted: bool,
    |
        parameter == #[trigger] spelled_parameter(written, value, a, b, c, d, quoted)
            && text::ascii_lowered(written) == name && text_laws::tight(written)
            && !written.contains('=') && text_laws::blank(a) && text_laws::blank(b)
            && text_laws::blank(c) && text_laws::blank(d) && !value.contains('"')
            && text_laws::tight(value) && written.len() > 0 && value.len() > 0;
    let mark = if quoted {
        seq!['"']
    } else {
        Seq::empty()
    };
    let body = mark + value + mark;
    let core = written + b + seq!['='] + c + body;
    assert(parameter =~= a + core + d);
    assert(body.last() == (if quoted {
        '"'
    } else {
        value.last()
    }));
    assert(core[0] == written[0]);
    assert(core.last() == body.last());
    assert(text_laws::tight(core));
    text_laws::trimming_leaves_the_core(a, core, d);
    let p = (written.len() + b.len()) as int;
    assert forall|i: int| 0 <= i < p implies core[i] != '=' by {
        if i < written.len() {
            assert(core[i] == written[i]);
        } else {
            assert(core[i] == b[i - written.len()]);
            assert(text::is_space(b[i - written.len()]));
        }
    }
    assert(core[p] == '=');
    text::index_bounds(core, '=', 0);
    assert(text::index_from(core, '=', 0) == p);
    let none = Seq::<char>::empty();
    assert(core.take(p) =~= none + written + b);
    text_laws::trimming_leaves_the_core(none, written, b);
    assert(core.skip(p + 1) =~= c + body + none);
    assert(body[0] == (if quoted {
        '"'
    } else {
        value[0]
    }));
    assert(text_laws::tight(body));
    text_laws::trimming_leaves_the_core(c, body, none);
    quotes_come_off(value, mark);
}

proof fn quotes_come_off(value: Seq<char>, mark: Seq<char>)
    requires
        mark == seq!['"'] || mark.len() == 0,
        !value.contains('"'),
        value.len() > 0,
    ensures
        address::unquoted(mark + value + mark) == value,
{
    assert(text_laws::run_of(mark, '"'));
    assert(value.contains(value[0]) && value.contains(value[value.len() - 1]));
    text_laws::stripping_leaves_the_core(value + mark, mark, '"');
    assert(mark + (value + mark) =~= mark + value + mark);
    assert((value + mark)[0] == value[0]);
    text_laws::stripping_leaves_the_core(value, mark, '"');
}

/// A list of parameters in which one is the last of its name: each of those behind it
/// has another name.
pub open spec fn last_says(
    parameters: Seq<Seq<char>>,
    names: Seq<Seq<char>>,
    values: Seq<Seq<char>>,
    at: int,
) -> bool {
    &&& names.len() == parameters.len()
    &&& values.len() == parameters.len()
    &&& forall|i: int|
        0 <= i < parameters.len() ==> parameter_says(#[trigger] parameters[i], names[i], values[i])
    &&& 0 <= at < parameters.len()
    &&& forall|i: int| at < i < parameters.len() ==> #[trigger] names[i] != names[at]
}

proof fn parameters_are_read(
    parameters: Seq<Seq<char>>,
    names: Seq<Seq<char>>,
    values: Seq<Seq<char>>,
    at: int,
)
    requires
        last_says(parameters, names, values, at),
    ensures
        names[at] == "host"@ ==> address::forwarded_params(parameters).host == Some(values[at]),
        names[at] == "proto"@ ==> address::forwarded_params(parameters).scheme == Some(values[at]),
    decreases parameters.len(),
{
    reveal_strlit("host");
    reveal_strlit("proto");
    assert("host"@.len() == 4 && "proto"@.len() == 5);
    let less = parameters.drop_last();
    let last = parameters.len() - 1;
    parameter_is_read(
        address::forwarded_params(less),
        parameters[last],
        names[last],
        values[last],
    );
    if at < last {
        assert(last_says(less, names.drop_last(), values.drop_last(), at)) by {
            assert forall|i: int| 0 <= i < less.len() implies parameter_says(
                #[trigger] less[i],
                names.drop_last()[i],
                values.drop_last()[i],
            ) by {
                assert(less[i] == parameters[i]);
            }
            assert forall|i: int| at < i < less.len() implies #[trigger] names.drop_last()[i]
                != names.drop_last()[at] by {
                assert(names[i] != names[at]);
            }
        }
        parameters_are_read(less, names.drop_last(), values.drop_last(), at);
        assert(names[last] != names[at]);
    }
}

/// A `Forwarded` header counts before everything but an override: the host that its
/// first element names, behind the scheme that it names.
pub proof fn forwarded_comes_before_the_host(
    head: HeadView,
    said: Seq<char>,
    rest: Seq<char>,
    names: Seq<Seq<char>>,
    values: Seq<Seq<char>>,
    host: int,
    proto: int,
)
    requires
        is_silent(head, "x-vibrev-external-base"@),
        first_says(head, "forwarded"@, said + rest),
        !said.contains(','),
        rest.len() == 0 || rest[0] == ',',
        last_says(text::pieces(said, ';'), names, values, host),
        names[host] == "host"@,
        last_says(text::pieces(said, ';'), names, values, proto),
        names[proto] == "proto"@,
    ensures
        address::candidate(head) == Some(values[proto] + "://"@ + values[host]),
{
    let value = said + rest;
    first_header_counts(head, "x-vibrev-external-base"@, value);
    first_header_counts(head, "forwarded"@, value);
    first_element_ends(said, rest);
    parameters_are_read(text::pieces(said, ';'), names, values, host);
    parameters_are_read(text::pieces(said, ';'), names, values, proto);
}

proof fn first_element_ends(said: Seq<char>, rest: Seq<char>)
    requires
        !said.contains(','),
        rest.len() == 0 || rest[0] == ',',
    ensures
        address::upto(said + rest, ',') == said,
{
    let value = said + rest;
    text::index_bounds(value, ',', 0);
    let p = text::index_from(value, ',', 0);
    if p < said.len() {
        assert(said[p] == ',');
    }
    if p > said.len() {
        assert(value[said.len() as int] == rest[0]);
    }
    assert(value.take(said.len() as int) =~= said);
}

/// A `Forwarded` header that names a host and no scheme names that host behind
/// `http://`.
pub proof fn forwarded_defaults_to_http(
    head: HeadView,
    said: Seq<char>,
    rest: Seq<char>,
    names: Seq<Seq<char>>,
    values: Seq<Seq<char>>,
    host: int,
)
    requires
        is_silent(head, "x-vibrev-external-base"@),
        first_says(head, "forwarded"@, said + rest),
        !said.contains(','),
        rest.len() == 0 || rest[0] == ',',
        last_says(text::pieces(said, ';'), names, values, host),
        names[host] == "host"@,
        forall|i: int| 0 <= i < names.len() ==> #[trigger] names[i] != "proto"@,
    ensures
        address::candidate(head) == Some("http://"@ + values[host]),
{
    let value = said + rest;
    first_header_counts(head, "x-vibrev-external-base"@, value);
    first_header_counts(head, "forwarded"@, value);
    first_element_ends(said, rest);
    parameters_are_read(text::pieces(said, ';'), names, values, host);
    no_parameter_is_none(text::pieces(said, ';'), names, values);
    reveal_strlit("http");
    reveal_strlit("://");
    reveal_strlit("http://");
    assert("http"@ + "://"@ + values[host] =~= "http://"@ + values[host]);
}

proof fn no_parameter_is_none(
    parameters: Seq<Seq<char>>,
    names: Seq<Seq<char>>,
    values: Seq<Seq<char>>,
)
    requires
        names.len() == parameters.len(),
        values.len() == parameters.len(),
        forall|i: int|
            0 <= i < parameters.len() ==> parameter_says(
                #[trigger] parameters[i],
                names[i],
                values[i],
            ),
        forall|i: int| 0 <= i < names.len() ==> #[trigger] names[i] != "proto"@,
    ensures
        address::forwarded_params(parameters).scheme is None,
    decreases parameters.len(),
{
    if parameters.len() > 0 {
        let less = parameters.drop_last();
        let last = parameters.len() - 1;
        assert(names[last] != "proto"@);
        assert forall|i: int| 0 <= i < less.len() implies parameter_says(
            #[trigger] less[i],
            names.drop_last()[i],
            values.drop_last()[i],
        ) by {
            assert(less[i] == parameters[i]);
        }
        assert forall|i: int| 0 <= i < names.drop_last().len() implies #[trigger] names.drop_last()[i]
            != "proto"@ by {
            assert(names[i] != "proto"@);
        }
        no_parameter_is_none(less, names.drop_last(), values.drop_last());
        parameter_is_read(
            address::forwarded_params(less),
            parameters[last],
            names[last],
            values[last],
        );
    }
}

// ---------------------------------------------------------------------------
// The answer
// ---------------------------------------------------------------------------

/// A base URL is handed out exactly for an `http` or `https` URL with a host. It is
/// that URL up to its path, with the slashes at the path's end gone.
pub proof fn a_base_is_its_url(
    parts: Option<(Option<Seq<char>>, Option<Seq<char>>, Seq<char>)>,
    scheme: Seq<char>,
    authority: Seq<char>,
    path: Seq<char>,
    slashes: Seq<char>,
)
    requires
        text_laws::run_of(slashes, '/'),
        path.len() > 0 ==> path.last() != '/',
        parts == Some((Some(scheme), Some(authority), path + slashes)),
    ensures
        scheme == "http"@ || scheme == "https"@ ==> address::http_base(parts) == Some(
            scheme + "://"@ + authority + path,
        ),
        !(scheme == "http"@ || scheme == "https"@) ==> address::http_base(parts) is None,
{
    text_laws::stripping_leaves_the_core(path, slashes, '/');
}

/// What is no URL, or one without a scheme or a host, makes no base URL.
pub proof fn no_host_no_base(
    scheme: Option<Seq<char>>,
    authority: Option<Seq<char>>,
    path: Seq<char>,
)
    ensures
        address::http_base(None) is None,
        scheme is None || authority is None ==> address::http_base(
            Some((scheme, authority, path)),
        ) is None,
{
}

} // verus!
