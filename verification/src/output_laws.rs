//! What holds of every answer that is held to a size.

use vstd::prelude::*;

use crate::json;
use crate::json::Json;
use crate::outcome;
use crate::outcome::{BlockView, ResultView};
use crate::output;
use crate::output::{CacheView, HeldView, Limits, OutputCache, Prepared, Spill};
use crate::paths;
use crate::text;
use crate::text_laws;

verus! {

// ---------------------------------------------------------------------------
// Previews
// ---------------------------------------------------------------------------

/// A preview shows of a long list the first items and of a long text the first
/// characters and how many there were; of every item that it shows, it shows a
/// preview one level deeper. Below the deepest level nothing is cut.
pub proof fn previews_show_the_start(
    doc: Json,
    items: Seq<Json>,
    s: Seq<char>,
    depth: nat,
    limits: Limits,
    i: int,
)
    ensures
        depth > limits.preview_depth ==> output::preview(doc, depth, limits) == doc,
        depth <= limits.preview_depth && s.len() > limits.preview_string_chars ==> {
            let shown = output::preview(Json::Text(s), depth, limits)->Text_0;
            &&& output::preview(Json::Text(s), depth, limits) is Text
            &&& text::begins(shown, s.take(limits.preview_string_chars as int))
            &&& shown.skip(limits.preview_string_chars as int) == "... ["@ + text::decimal(s.len())
                + " chars total]"@
        },
        depth <= limits.preview_depth ==> {
            let shown = output::preview(Json::List(items), depth, limits)->List_0;
            &&& output::preview(Json::List(items), depth, limits) is List
            &&& shown.len() == if items.len() <= limits.preview_items {
                items.len()
            } else {
                limits.preview_items as nat
            }
            &&& 0 <= i < shown.len() ==> shown[i] == output::preview(items[i], depth + 1, limits)
        },
{
    if depth <= limits.preview_depth && s.len() > limits.preview_string_chars {
        let n = limits.preview_string_chars as int;
        let shown = output::preview(Json::Text(s), depth, limits)->Text_0;
        assert(shown.take(n) =~= s.take(n));
        assert(shown.skip(n) =~= "... ["@ + text::decimal(s.len()) + " chars total]"@);
    }
}

/// The text of an answer that is shortened keeps its start, and says on a line of its
/// own how long it was; a text that fits is left alone.
pub proof fn clipping_keeps_the_start(s: Seq<char>, max: nat)
    ensures
        s.len() <= max ==> output::clipped(s, max) == s,
        s.len() > max ==> text::begins(output::clipped(s, max), s.take(max as int))
            && output::clipped(s, max).skip(max as int) == "\n... ["@ + text::decimal(s.len())
            + " chars total]"@,
{
    if s.len() > max {
        let shown = output::clipped(s, max);
        assert(shown.take(max as int) =~= s.take(max as int));
        assert(shown.skip(max as int) =~= "\n... ["@ + text::decimal(s.len())
            + " chars total]"@);
    }
}

// ---------------------------------------------------------------------------
// What is measured, and what is put in its place
// ---------------------------------------------------------------------------

/// What is measured of an answer is its structured payload; without one, the document
/// that its first text spells out, or else that text.
pub proof fn the_payload_is_measured(result: ResultView, doc: Json, said: Seq<char>)
    ensures
        result.structured_content == Some(doc) ==> output::payload(result) == doc,
        result.structured_content is None && result.content.len() > 0 && result.content[0] is Text
            && result.content[0]->Text_text == said ==> output::payload(result) == (
        if json::parsed(said) is Some {
            json::parsed(said)->0
        } else {
            Json::Text(said)
        }),
        result.structured_content is None && (result.content.len() == 0
            || result.content[0] is Other) ==> output::payload(result) == Json::Null,
{
}

/// An answer that was caught keeps what it says of itself: its kind, whether it failed,
/// and everything in its metadata. Its first text is shortened and not replaced, the
/// hint stands behind it, and a structured payload is shown as a preview exactly where
/// there was one.
pub proof fn caught_answers_stay_legible(
    result: ResultView,
    shown: Json,
    metadata: Json,
    hint: Seq<char>,
    max: nat,
    name: Seq<char>,
)
    ensures
        ({
            let after = output::capped(result, shown, metadata, hint, max);
            &&& after.is_error == result.is_error
            &&& after.result_type == result.result_type
            &&& after.structured_content is Some <==> result.structured_content is Some
            &&& after.structured_content is Some ==> after.structured_content->0 == shown
            &&& after.content.len() == 2
            &&& after.content[1] is Text && after.content[1]->Text_text == hint
            &&& after.content[0] is Text
            &&& result.content.len() > 0 && result.content[0] is Text
                ==> after.content[0]->Text_text == output::clipped(
                result.content[0]->Text_text,
                max,
            )
            &&& result.content.len() == 0 || result.content[0] is Other
                ==> after.content[0]->Text_text == json::compact_text(shown)
            &&& after.meta is Some
            &&& json::field(after.meta->0, "vibrev"@) == Some(metadata)
            &&& name != "vibrev"@ ==> json::field(after.meta->0, name) == (
            if result.meta is Some {
                json::field(result.meta->0, name)
            } else {
                None
            })
        }),
{
    let meta = match result.meta {
        Some(fields) => fields,
        None => Seq::empty(),
    };
    json::set_field(meta, "vibrev"@, metadata, name);
    if result.meta is None {
        json::not_found(meta, name);
    }
}

/// The metadata of a caught answer says that it was cut, how long it was, what it is
/// known by and where the rest is.
pub proof fn the_metadata_says_where_the_rest_is(
    total: nat,
    id: Seq<char>,
    url: Json,
    hint: Seq<char>,
)
    ensures
        ({
            let said = output::bookkeeping(total, id, url, hint);
            &&& json::field(said, "output_truncated"@) == Some(Json::Bool(true))
            &&& json::field(said, "total_chars"@) == Some(Json::Integer(total as int))
            &&& json::field(said, "output_id"@) == Some(Json::Text(id))
            &&& json::field(said, "download_url"@) == Some(url)
            &&& json::field(said, "download_hint"@) == Some(Json::Text(hint))
            &&& said.len() == 5
        }),
{
    reveal_strlit("output_truncated");
    reveal_strlit("total_chars");
    reveal_strlit("output_id");
    reveal_strlit("download_url");
    reveal_strlit("download_hint");
    let said = output::bookkeeping(total, id, url, hint);
    assert("output_truncated"@.len() == 16 && "total_chars"@.len() == 11 && "output_id"@.len() == 9
        && "download_url"@.len() == 12 && "download_hint"@.len() == 13);
    json::found_at(said, 0);
    json::found_at(said, 1);
    json::found_at(said, 2);
    json::found_at(said, 3);
    json::found_at(said, 4);
}

// ---------------------------------------------------------------------------
// Where the rest is
// ---------------------------------------------------------------------------

/// The address that is handed out leads back to the answer: below `/output` it asks
/// for the id that the answer is known by.
pub proof fn addresses_lead_back(base: Seq<char>, slashes: Seq<char>, id: Seq<char>)
    requires
        text_laws::run_of(slashes, '/'),
        base.len() > 0 ==> base.last() != '/',
        id.len() > 0,
        !id.contains('/'),
    ensures
        exists|path: Seq<char>|
            output::output_url(base + slashes, id) == #[trigger] (base + "/output"@ + path)
                && output::asked_id(path) == Some(id),
{
    text_laws::stripping_leaves_the_core(base, slashes, '/');
    reveal_strlit("/output/");
    reveal_strlit("/output");
    reveal_strlit(".json");
    let path = seq!['/'] + id + ".json"@;
    assert("/output/"@ =~= "/output"@ + seq!['/']);
    assert(output::output_url(base + slashes, id) =~= base + "/output"@ + path);
    asked_by_name(id);
}

/// A path asks for an id exactly where it is that id and `.json`, behind any slashes;
/// an id is not empty and holds no slash.
pub proof fn asked_by_name(id: Seq<char>)
    requires
        !id.contains('/'),
    ensures
        output::asked_id(seq!['/'] + id + ".json"@) == (if id.len() > 0 {
            Some(id)
        } else {
            None
        }),
        output::asked_id(id + ".json"@) == (if id.len() > 0 {
            Some(id)
        } else {
            None
        }),
{
    reveal_strlit(".json");
    let name = id + ".json"@;
    let path = seq!['/'] + id + ".json"@;
    assert(".json"@.len() == 5);
    assert(name.len() == id.len() + 5);
    assert(name[0] != '/') by {
        if id.len() > 0 {
            assert(id.contains(id[0]));
            assert(name[0] == id[0]);
        } else {
            assert(name[0] == ".json"@[0]);
        }
    }
    assert(text_laws::run_of(seq!['/'], '/'));
    text_laws::stripping_leaves_the_core(name, seq!['/'], '/');
    assert(seq!['/'] + name =~= path);
    assert(text::start_stripped(name, '/') == name);
    assert(name.skip(name.len() - 5) =~= ".json"@);
    assert(name.take(name.len() - 5) =~= id);
}

/// What asks for anything but a file of this kind asks for nothing.
pub proof fn other_paths_ask_for_nothing(path: Seq<char>, id: Seq<char>)
    requires
        output::asked_id(path) == Some(id),
    ensures
        id.len() > 0,
        !id.contains('/'),
        text::ends(path, id + ".json"@),
{
    let name = text::start_stripped(path, '/');
    stripped_is_a_tail(path, '/');
    assert(name =~= id + ".json"@) by {
        let n = name.len() - ".json"@.len();
        assert(name.skip(n) == ".json"@);
        assert(name =~= name.take(n) + name.skip(n));
    }
}

proof fn stripped_is_a_tail(s: Seq<char>, mark: char)
    ensures
        text::ends(s, text::start_stripped(s, mark)),
    decreases s.len(),
{
    if s.len() > 0 && s[0] == mark {
        let less = s.drop_first();
        stripped_is_a_tail(less, mark);
        let tail = text::start_stripped(s, mark);
        assert(s.skip(s.len() - tail.len()) =~= less.skip(less.len() - tail.len()));
    } else {
        assert(s.skip(0) =~= s);
    }
}

/// An answer that is kept nowhere has no address. One that this server keeps has one
/// below the address that the request came to, or below the usual one where that is not
/// known. One in a file has that of its file, in the directory and named by its id.
pub proof fn every_channel_has_its_address(
    spill: Spill,
    id: Seq<char>,
    base: Option<Seq<char>>,
)
    ensures
        match spill {
            Spill::Nowhere => output::download_url(spill, id, base) == Json::Null,
            Spill::Http { fallback_base_url } => output::download_url(spill, id, base)
                == Json::Text(
                output::output_url(
                    if base is Some {
                        base->0
                    } else {
                        fallback_base_url@
                    },
                    id,
                ),
            ),
            Spill::File { directory } => match output::download_url(spill, id, base) {
                Json::Text(url) => {
                    let path = paths::joined_path(
                        directory@,
                        vstd::utf8::encode_utf8(id + ".json"@),
                    );
                    &&& text::begins(url, "file://"@)
                    &&& output::decoded(url.skip("file://"@.len() as int)) == path
                },
                _ => false,
            },
        },
{
    if let Spill::File { directory } = spill {
        let path = paths::joined_path(directory@, output::file_name(id));
        let url = "file://"@ + output::encoded(path);
        output::file_url_decodes(path);
        assert(url.take("file://"@.len() as int) =~= "file://"@);
        assert(url.skip("file://"@.len() as int) =~= output::encoded(path));
    }
}

/// The hint names the address, or the file, or says that there is neither.
pub proof fn the_hint_names_the_address(
    spill: Spill,
    id: Seq<char>,
    base: Option<Seq<char>>,
    max: usize,
)
    ensures
        match spill {
            Spill::Nowhere => output::download_hint(spill, id, base, max)
                == "Output truncated at "@ + text::decimal(max as nat) + " characters."@,
            Spill::Http { .. } => output::download_url(spill, id, base) is Text && text::ends(
                output::download_hint(spill, id, base, max),
                output::download_url(spill, id, base)->Text_0,
            ),
            Spill::File { directory } => text::ends(
                output::download_hint(spill, id, base, max),
                paths::lossy_text(
                    paths::joined_path(directory@, vstd::utf8::encode_utf8(id + ".json"@)),
                ),
            ),
        },
{
    let hint = output::download_hint(spill, id, base, max);
    match spill {
        Spill::Nowhere => {},
        Spill::Http { .. } => {
            let url = output::download_url(spill, id, base)->Text_0;
            assert(hint.skip(hint.len() - url.len()) =~= url);
        },
        Spill::File { directory } => {
            let shown = paths::lossy_text(paths::joined_path(directory@, output::file_name(id)));
            assert(hint.skip(hint.len() - shown.len()) =~= shown);
        },
    }
}

/// A file stands in its directory, behind one slash; a name that starts at the root
/// stands in no directory.
pub proof fn files_stand_in_their_directory(directory: Seq<u8>, name: Seq<u8>)
    ensures
        name.len() > 0 && name[0] == 0x2f ==> paths::joined_path(directory, name) == name,
        (name.len() == 0 || name[0] != 0x2f) && directory.len() > 0 && directory.last() != 0x2f
            ==> paths::joined_path(directory, name) == directory + seq![0x2fu8] + name,
        (name.len() == 0 || name[0] != 0x2f) && directory.len() > 0 && directory.last() == 0x2f
            ==> paths::joined_path(directory, name) == directory + name,
        (name.len() == 0 || name[0] != 0x2f) && directory.len() == 0 ==> paths::joined_path(
            directory,
            name,
        ) == name,
{
    assert(directory.push(0x2f) + name =~= directory + seq![0x2fu8] + name);
    if directory.len() == 0 {
        assert(directory + name =~= name);
    }
}

// ---------------------------------------------------------------------------
// What is kept
// ---------------------------------------------------------------------------

/// Whether an answer is still to be had.
pub open spec fn is_young(entry: HeldView, ttl: u128, now: u128) -> bool {
    now - entry.created_at < ttl && ttl > 0
}

proof fn fresh_is_young(held: Seq<HeldView>, ttl: u128, now: u128)
    ensures
        output::fresh(held, ttl, now) == held.filter(|e: HeldView| is_young(e, ttl, now)),
    decreases held.len(),
{
    reveal(Seq::filter);
    if held.len() > 0 {
        fresh_is_young(held.drop_last(), ttl, now);
    } else {
        assert(output::fresh(held, ttl, now) =~= held.filter(
            |e: HeldView| is_young(e, ttl, now),
        ));
    }
}

proof fn others_are_others(held: Seq<HeldView>, id: Seq<char>)
    ensures
        output::others(held, id) == held.filter(|e: HeldView| e.id != id),
    decreases held.len(),
{
    reveal(Seq::filter);
    if held.len() > 0 {
        others_are_others(held.drop_last(), id);
    } else {
        assert(output::others(held, id) =~= held.filter(|e: HeldView| e.id != id));
    }
}

proof fn files_are_of_entries(held: Seq<HeldView>, path: Seq<u8>)
    ensures
        output::files(held).contains(path) <==> exists|i: int|
            0 <= i < held.len() && (#[trigger] held[i]).file_path == Some(path),
    decreases held.len(),
{
    if held.len() > 0 {
        let less = held.drop_last();
        files_are_of_entries(less, path);
        let before = output::files(less);
        let after = output::files(held);
        let last = held.len() - 1;
        if before.contains(path) {
            let k = choose|k: int| 0 <= k < before.len() && before[k] == path;
            assert(after[k] == path);
            let i = choose|i: int| 0 <= i < less.len() && (#[trigger] less[i]).file_path == Some(
                path,
            );
            assert(held[i].file_path == Some(path));
        }
        if held[last].file_path == Some(path) {
            assert(after[after.len() - 1] == path);
        }
        if after.contains(path) && !before.contains(path) {
            let k = choose|k: int| 0 <= k < after.len() && after[k] == path;
            if k < before.len() {
                assert(before[k] == path);
            }
            assert(held[last].file_path == Some(path));
        }
        if exists|i: int| 0 <= i < held.len() && (#[trigger] held[i]).file_path == Some(path) {
            let i = choose|i: int| 0 <= i < held.len() && (#[trigger] held[i]).file_path == Some(
                path,
            );
            if i < last {
                assert(less[i].file_path == Some(path));
            }
        }
    }
}

proof fn expired_are_of_the_old(held: Seq<HeldView>, ttl: u128, now: u128, path: Seq<u8>)
    ensures
        output::expired_files(held, ttl, now).contains(path) <==> exists|i: int|
            0 <= i < held.len() && (#[trigger] held[i]).file_path == Some(path) && !is_young(
                held[i],
                ttl,
                now,
            ),
    decreases held.len(),
{
    if held.len() > 0 {
        let less = held.drop_last();
        expired_are_of_the_old(less, ttl, now, path);
        let before = output::expired_files(less, ttl, now);
        let after = output::expired_files(held, ttl, now);
        let last = held.len() - 1;
        if before.contains(path) {
            let k = choose|k: int| 0 <= k < before.len() && before[k] == path;
            assert(after[k] == path);
            let i = choose|i: int|
                0 <= i < less.len() && (#[trigger] less[i]).file_path == Some(path) && !is_young(
                    less[i],
                    ttl,
                    now,
                );
            assert(held[i] == less[i]);
        }
        if held[last].file_path == Some(path) && !is_young(held[last], ttl, now) {
            assert(after[after.len() - 1] == path);
        }
        if after.contains(path) && !before.contains(path) {
            let k = choose|k: int| 0 <= k < after.len() && after[k] == path;
            if k < before.len() {
                assert(before[k] == path);
            }
            assert(held[last].file_path == Some(path));
        }
        if exists|i: int|
            0 <= i < held.len() && (#[trigger] held[i]).file_path == Some(path) && !is_young(
                held[i],
                ttl,
                now,
            ) {
            let i = choose|i: int|
                0 <= i < held.len() && (#[trigger] held[i]).file_path == Some(path) && !is_young(
                    held[i],
                    ttl,
                    now,
                );
            if i < last {
                assert(less[i] == held[i]);
            }
        }
    }
}

/// Time takes exactly the answers whose time is up, leaves the others in order, and
/// gives up the files of those that it takes and of no others.
pub proof fn time_takes_the_old(cache: CacheView, ttl: u128, now: u128, path: Seq<u8>)
    ensures
        ({
            let after = cache.reaped(ttl, now);
            &&& after.held == cache.held.filter(|e: HeldView| is_young(e, ttl, now))
            &&& after.spills == cache.spills
            &&& after.discarded.contains(path) <==> cache.discarded.contains(path) || exists|i: int|
                0 <= i < cache.held.len() && (#[trigger] cache.held[i]).file_path == Some(path)
                    && !is_young(cache.held[i], ttl, now)
        }),
{
    fresh_is_young(cache.held, ttl, now);
    expired_are_of_the_old(cache.held, ttl, now, path);
    let more = output::expired_files(cache.held, ttl, now);
    both_contain(cache.discarded, more, path);
}

proof fn both_contain(a: Seq<Seq<u8>>, b: Seq<Seq<u8>>, path: Seq<u8>)
    ensures
        (a + b).contains(path) <==> a.contains(path) || b.contains(path),
{
    let all = a + b;
    if a.contains(path) {
        let i = choose|i: int| 0 <= i < a.len() && a[i] == path;
        assert(all[i] == path);
    }
    if b.contains(path) {
        let i = choose|i: int| 0 <= i < b.len() && b[i] == path;
        assert(all[a.len() + i] == path);
    }
    if all.contains(path) {
        let i = choose|i: int| 0 <= i < all.len() && all[i] == path;
        if i < a.len() {
            assert(a[i] == path);
        } else {
            assert(b[i - a.len()] == path);
        }
    }
}

/// An answer is taken in behind the others, in place of one of its name. Where there
/// are then too many the oldest go, no more of them than have to, and their files are
/// given up.
pub proof fn the_oldest_make_room(
    cache: CacheView,
    entry: HeldView,
    limits: Limits,
    path: Seq<u8>,
)
    ensures
        ({
            let after = cache.keeping(entry, limits);
            let all = cache.held.filter(
                |e: HeldView| is_young(e, limits.ttl, entry.created_at),
            ).filter(|e: HeldView| e.id != entry.id).push(entry);
            let kept = if all.len() > limits.max_entries {
                limits.max_entries as int
            } else {
                all.len() as int
            };
            &&& after.held.len() == kept
            &&& after.held == all.skip(all.len() - kept)
            &&& after.spills == cache.spills
            &&& (exists|i: int|
                0 <= i < all.len() - kept && (#[trigger] all[i]).file_path == Some(path))
                ==> after.discarded.contains(path)
            &&& after.discarded.contains(path) ==> cache.reaped(
                limits.ttl,
                entry.created_at,
            ).discarded.contains(path) || exists|i: int|
                0 <= i < all.len() - kept && (#[trigger] all[i]).file_path == Some(path)
        }),
{
    fresh_is_young(cache.held, limits.ttl, entry.created_at);
    let reaped = cache.reaped(limits.ttl, entry.created_at);
    others_are_others(reaped.held, entry.id);
    let all = output::others(reaped.held, entry.id).push(entry);
    let gone = output::excess(all.len(), limits.max_entries);
    let out = all.take(gone);
    files_are_of_entries(out, path);
    both_contain(reaped.discarded, output::files(out), path);
    if exists|i: int| 0 <= i < gone && (#[trigger] all[i]).file_path == Some(path) {
        let i = choose|i: int| 0 <= i < gone && (#[trigger] all[i]).file_path == Some(path);
        assert(out[i].file_path == Some(path));
    }
    if exists|i: int| 0 <= i < out.len() && (#[trigger] out[i]).file_path == Some(path) {
        let i = choose|i: int| 0 <= i < out.len() && (#[trigger] out[i]).file_path == Some(path);
        assert(all[i].file_path == Some(path));
    }
}

/// A name finds the answer that was taken in under it last, and nothing where there is
/// none.
pub proof fn names_find_their_answer(held: Seq<HeldView>, at: int, id: Seq<char>)
    ensures
        0 <= at < held.len() && held[at].id == id && (forall|i: int|
            at < i < held.len() ==> (#[trigger] held[i]).id != id) ==> output::find(held, id)
            == held[at].value,
        (forall|i: int| 0 <= i < held.len() ==> (#[trigger] held[i]).id != id) ==> output::find(
            held,
            id,
        ) is None,
    decreases held.len(),
{
    if held.len() > 0 {
        let less = held.drop_last();
        names_find_their_answer(less, at, id);
        let last = held.len() - 1;
        if held[last].id != id {
            if 0 <= at < held.len() && held[at].id == id && (forall|i: int|
                at < i < held.len() ==> (#[trigger] held[i]).id != id) {
                assert forall|i: int| at < i < less.len() implies (#[trigger] less[i]).id
                    != id by {
                    assert(less[i] == held[i]);
                }
                assert(less[at] == held[at]);
            }
            if forall|i: int| 0 <= i < held.len() ==> (#[trigger] held[i]).id != id {
                assert forall|i: int| 0 <= i < less.len() implies (#[trigger] less[i]).id
                    != id by {
                    assert(less[i] == held[i]);
                }
            }
        } else if 0 <= at < last {
            assert(held[last].id == id);
        }
    }
}

/// What is kept of a caught answer: all of it where this server hands it out, only its
/// file where it went into one, and nothing where it went nowhere.
pub proof fn what_is_kept_of_an_answer(full: Json, id: Seq<char>, spill: Spill, now: u128)
    ensures
        match spill {
            Spill::Nowhere => output::entry_of(full, id, spill, now) is None,
            Spill::Http { .. } => match output::entry_of(full, id, spill, now) {
                Some(entry) => entry.id == id && entry.value == Some(full) && entry.created_at
                    == now && entry.file_path is None,
                None => false,
            },
            Spill::File { directory } => match output::entry_of(full, id, spill, now) {
                Some(entry) => entry.id == id && entry.value is None && entry.created_at == now
                    && entry.file_path == Some(
                    paths::joined_path(directory@, vstd::utf8::encode_utf8(id + ".json"@)),
                ),
                None => false,
            },
        },
{
}

/// Every answer that is caught is counted, and is then held under its name with its
/// moment where the channel holds any.
pub proof fn every_catch_is_counted(
    before: OutputCache,
    after: OutputCache,
    full: Json,
    id: Seq<char>,
    now: u128,
)
    requires
        output::caught_as(before, after, full, id, now),
    ensures
        before.state().spills < u64::MAX ==> after.state().spills == before.state().spills + 1,
        before.state().spills == u64::MAX ==> after.state().spills == 0,
        before.channel() is Nowhere ==> after.state().held == before.state().held,
        before.channel() is Http && before.bounds().max_entries > 0 ==> after.state().held.len() > 0
            && after.state().held.last() == (HeldView {
            id,
            value: Some(full),
            created_at: now,
            file_path: None,
        }),
{
}

/// What is published of a caught answer is its preview, and what is said of it is said
/// of the whole: how long that was, what it is known by and where it is.
pub proof fn publications_measure_the_whole(
    prepared: Prepared,
    full: Json,
    id: Seq<char>,
    spill: Spill,
    limits: Limits,
    base: Option<Seq<char>>,
)
    requires
        output::is_publication(prepared, full, id, spill, limits, base),
    ensures
        prepared.value.json() == output::preview(full, 0, limits),
        prepared.truncation matches Some(cut) && ({
            let said = cut.metadata.json();
            &&& cut.hint@ == output::download_hint(spill, id, base, limits.max_chars)
            &&& said.get("total_chars"@) == Some(
                Json::Integer(json::compact_text(full).len() as int),
            )
            &&& said.get("output_id"@) == Some(Json::Text(id))
            &&& said.get("download_url"@) == Some(output::download_url(spill, id, base))
            &&& said.get("download_hint"@) == Some(Json::Text(cut.hint@))
            &&& said.get("output_truncated"@) == Some(Json::Bool(true))
        }),
{
    the_metadata_says_where_the_rest_is(
        json::compact_text(full).len(),
        id,
        output::download_url(spill, id, base),
        output::download_hint(spill, id, base, limits.max_chars),
    );
}

/// A result that was capped shows the preview of its payload and is told of by the
/// length of the whole.
pub proof fn capped_results_measure_the_whole(
    after: ResultView,
    before: ResultView,
    full: Json,
    id: Seq<char>,
    spill: Spill,
    limits: Limits,
    base: Option<Seq<char>>,
)
    requires
        output::is_capped(after, before, full, id, spill, limits, base),
    ensures
        after.structured_content is Some <==> before.structured_content is Some,
        after.structured_content is Some ==> after.structured_content->0 == output::preview(
            full,
            0,
            limits,
        ),
        after.meta matches Some(meta) && (json::field(meta, "vibrev"@) matches Some(said)
            && said.get("total_chars"@) == Some(
            Json::Integer(json::compact_text(full).len() as int),
        ) && said.get("output_id"@) == Some(Json::Text(id)) && said.get("download_url"@) == Some(
            output::download_url(spill, id, base),
        )),
        after.content.len() == 2 && after.content[1] is Text && after.content[1]->Text_text
            == output::download_hint(spill, id, base, limits.max_chars),
{
    let hint = output::download_hint(spill, id, base, limits.max_chars);
    let url = output::download_url(spill, id, base);
    let total = json::compact_text(full).len();
    the_metadata_says_where_the_rest_is(total, id, url, hint);
    caught_answers_stay_legible(
        before,
        output::preview(full, 0, limits),
        Json::Object(output::bookkeeping(total, id, url, hint)),
        hint,
        limits.max_chars as nat,
        "vibrev"@,
    );
}

} // verus!
