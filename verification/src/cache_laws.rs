//! What the keys of builds tell apart.

use vstd::prelude::*;
use vstd::utf8::*;

use crate::assets::Assets;
use crate::bytes::lemma_double_round_trip;
use crate::cache::{
    all_unchanged, build_key, cache_identity, dependencies_of, digest_bytes, digest_of, digest_with,
    digests_bytes, digests_of, fingerprint_of, image_paths, loaded_sources, machine_bytes,
    mark_bytes, normalized, programs_bytes, resource_paths, DependencyStamp, DependencyView,
    DigestView, Machine, ProgramMark, SavedView,
};
use crate::config::Config;
use crate::digest::{hex_digits, hex_text, md5_digest};
use crate::gml::vm::{le32, le64};
use crate::package::{read_from, ContentsView, ReadFile};
use crate::project::{ProjectManifest, ResourceRef};
use crate::resources::Background;
use crate::text::{digit, lemma_bytes_determine_text};

verus! {

/// Whether two keys are the spellings of the digests of different bytes.
pub open spec fn are_of_different_bytes(first: Seq<char>, second: Seq<char>) -> bool {
    exists|a: Seq<u8>, b: Seq<u8>|
        #![trigger md5_digest(a), md5_digest(b)]
        a != b && first == hex_text(md5_digest(a)) && second == hex_text(md5_digest(b))
}

/// Whether a digest has the sixteen bytes of one, and a key whose length a double
/// word holds.
pub open spec fn is_sized(digest: DigestView) -> bool {
    digest.digest.len() == 16 && encode_utf8(digest.key).len() <= u64::MAX
}

/// Whether all digests of a list are sized.
pub open spec fn are_sized(digests: Seq<DigestView>) -> bool {
    forall|k: int| 0 <= k < digests.len() ==> is_sized(#[trigger] digests[k])
}

proof fn lemma_le64_differs(first: int, second: int)
    requires
        0 <= first <= u64::MAX,
        0 <= second <= u64::MAX,
        le64(first) == le64(second),
    ensures
        first == second,
        le64(first).len() == 8,
{
    let bytes = le64(first);
    assert(bytes.subrange(0, 8) =~= bytes);
    lemma_double_round_trip(bytes, 0, first as u64);
    lemma_double_round_trip(bytes, 0, second as u64);
}

/// The file that is written first can be told from what is written.
proof fn lemma_first_digest(a: DigestView, more: Seq<u8>, b: DigestView, rest: Seq<u8>)
    requires
        is_sized(a),
        is_sized(b),
        digest_bytes(a) + more == digest_bytes(b) + rest,
    ensures
        a == b,
        more == rest,
{
    let first = encode_utf8(a.key);
    let second = encode_utf8(b.key);
    let here = seq![
        if a.present {
            1u8
        } else {
            0u8
        },
    ];
    let there = seq![
        if b.present {
            1u8
        } else {
            0u8
        },
    ];
    let x = le64(first.len() as int);
    let y = le64(second.len() as int);
    let v = le64(a.size as int);
    let w = le64(b.size as int);
    assert(digest_bytes(a) == x + first + here + v + a.digest);
    assert(digest_bytes(b) == y + second + there + w + b.digest);
    lemma_le64_length(first.len() as int);
    lemma_le64_length(second.len() as int);
    lemma_le64_length(a.size as int);
    lemma_le64_length(b.size as int);
    if x == y {
        lemma_le64_differs(first.len() as int, second.len() as int);
    }
    lemma_same_parts(x, first, here, v, a.digest, more, y, second, there, w, b.digest, rest);
    lemma_bytes_determine_text(a.key, b.key);
    assert(here[0] == there[0]);
    lemma_le64_differs(a.size as int, b.size as int);
}

proof fn lemma_le64_length(value: int)
    ensures
        le64(value).len() == 8,
{
}

proof fn lemma_same_parts(
    a: Seq<u8>,
    b: Seq<u8>,
    c: Seq<u8>,
    d: Seq<u8>,
    e: Seq<u8>,
    f: Seq<u8>,
    g: Seq<u8>,
    h: Seq<u8>,
    i: Seq<u8>,
    j: Seq<u8>,
    k: Seq<u8>,
    l: Seq<u8>,
)
    requires
        a + b + c + d + e + f == g + h + i + j + k + l,
        a.len() == g.len(),
        a == g ==> b.len() == h.len(),
        c.len() == i.len(),
        d.len() == j.len(),
        e.len() == k.len(),
    ensures
        a == g,
        b == h,
        c == i,
        d == j,
        e == k,
        f == l,
{
    lemma_regrouped(a, b, c, d, e, f);
    lemma_regrouped(g, h, i, j, k, l);
    lemma_same_heads(a, b + (c + (d + (e + f))), g, h + (i + (j + (k + l))));
    lemma_same_heads(b, c + (d + (e + f)), h, i + (j + (k + l)));
    lemma_same_heads(c, d + (e + f), i, j + (k + l));
    lemma_same_heads(d, e + f, j, k + l);
    lemma_same_heads(e, f, k, l);
}

proof fn lemma_same_heads(a: Seq<u8>, more: Seq<u8>, b: Seq<u8>, rest: Seq<u8>)
    requires
        a + more == b + rest,
        a.len() == b.len(),
    ensures
        a == b,
        more == rest,
{
    let x = a + more;
    let y = b + rest;
    assert(x.take(a.len() as int) =~= a);
    assert(y.take(a.len() as int) =~= b);
    assert(x.skip(a.len() as int) =~= more);
    assert(y.skip(a.len() as int) =~= rest);
}

proof fn lemma_regrouped(
    a: Seq<u8>,
    b: Seq<u8>,
    c: Seq<u8>,
    d: Seq<u8>,
    e: Seq<u8>,
    f: Seq<u8>,
)
    ensures
        a + b + c + d + e + f == a + (b + (c + (d + (e + f)))),
{
    assert(a + b + c + d + e + f =~= a + (b + (c + (d + (e + f)))));
}

proof fn lemma_digests_from_first(digests: Seq<DigestView>, count: int)
    requires
        0 < count <= digests.len(),
    ensures
        digests_bytes(digests, count) == digest_bytes(digests[0]) + digests_bytes(
            digests.skip(1),
            count - 1,
        ),
    decreases count,
{
    if count > 1 {
        lemma_digests_from_first(digests, count - 1);
        assert(digests.skip(1)[count - 2] == digests[count - 1]);
        assert(digests_bytes(digests, count) =~= digest_bytes(digests[0]) + digests_bytes(
            digests.skip(1),
            count - 1,
        ));
    } else {
        assert(digests_bytes(digests, 0) =~= seq![]);
        assert(digests_bytes(digests.skip(1), 0) =~= seq![]);
        assert(digests_bytes(digests, 1) =~= digest_bytes(digests[0]) + seq![]);
    }
}

proof fn lemma_some_bytes(digests: Seq<DigestView>)
    ensures
        digests.len() == 0 ==> digests_bytes(digests, digests.len() as int).len() == 0,
        digests.len() > 0 ==> digests_bytes(digests, digests.len() as int).len() > 0,
{
    if digests.len() > 0 {
        assert(digest_bytes(digests.last()).len() >= 8);
    }
}

proof fn lemma_first_of_both(first: Seq<DigestView>, second: Seq<DigestView>)
    requires
        first.len() > 0,
        second.len() > 0,
        is_sized(first[0]),
        is_sized(second[0]),
        digests_bytes(first, first.len() as int) == digests_bytes(second, second.len() as int),
    ensures
        first[0] == second[0],
        digests_bytes(first.skip(1), first.skip(1).len() as int) == digests_bytes(
            second.skip(1),
            second.skip(1).len() as int,
        ),
{
    lemma_digests_from_first(first, first.len() as int);
    lemma_digests_from_first(second, second.len() as int);
    lemma_first_digest(
        first[0],
        digests_bytes(first.skip(1), first.len() - 1),
        second[0],
        digests_bytes(second.skip(1), second.len() - 1),
    );
}

/// What is written of files determines them: their paths, whether they are there,
/// their sizes and the digests of their contents.
pub proof fn law_written_digests_determine_the_files(
    first: Seq<DigestView>,
    second: Seq<DigestView>,
)
    requires
        are_sized(first),
        are_sized(second),
        digests_bytes(first, first.len() as int) == digests_bytes(second, second.len() as int),
    ensures
        first == second,
    decreases first.len(),
{
    if first.len() > 0 && second.len() > 0 {
        lemma_first_of_both(first, second);
        assert forall|k: int| 0 <= k < first.len() - 1 implies is_sized(
            #[trigger] first.skip(1)[k],
        ) by {
            assert(is_sized(first[k + 1]));
        }
        assert forall|k: int| 0 <= k < second.len() - 1 implies is_sized(
            #[trigger] second.skip(1)[k],
        ) by {
            assert(is_sized(second[k + 1]));
        }
        law_written_digests_determine_the_files(first.skip(1), second.skip(1));
        assert forall|k: int| 0 < k < first.len() implies first[k] == second[k] by {
            assert(first.skip(1)[k - 1] == first[k]);
            assert(second.skip(1)[k - 1] == second[k]);
        }
        assert(first.skip(1).len() == second.skip(1).len());
        assert(first =~= second);
    } else {
        lemma_some_bytes(first);
        lemma_some_bytes(second);
        assert(first =~= second);
    }
}

/// Builds with different files have the digests of different bytes as their keys.
pub proof fn law_keys_tell_files_apart(
    machine: Machine,
    first: Seq<DigestView>,
    second: Seq<DigestView>,
)
    requires
        are_sized(first),
        are_sized(second),
        first != second,
    ensures
        are_of_different_bytes(build_key(machine, first), build_key(machine, second)),
{
    let head = machine_bytes(machine);
    let a = digests_bytes(first, first.len() as int);
    let b = digests_bytes(second, second.len() as int);
    if head + a == head + b {
        assert((head + a).skip(head.len() as int) =~= a);
        assert((head + b).skip(head.len() as int) =~= b);
        law_written_digests_determine_the_files(first, second);
    }
    assert(build_key(machine, first) == hex_text(md5_digest(head + a)));
    assert(build_key(machine, second) == hex_text(md5_digest(head + b)));
}

/// The digest of a file among those of all files that a build depends on.
proof fn lemma_digest_at(
    dependencies: Seq<DependencyView>,
    loaded: Seq<DigestView>,
    read: Seq<ReadFile>,
    count: int,
    at: int,
)
    requires
        0 <= at < count <= dependencies.len(),
        digests_of(dependencies, loaded, read, count) is Ok,
    ensures
        ({
            let digests = digests_of(dependencies, loaded, read, count)->Ok_0;
            let dependency = dependencies[at];
            &&& digests.len() == count
            &&& match digest_with(loaded, dependency.key, loaded.len() as int) {
                Some(digest) => digests[at] == digest,
                None => match read_from(read, dependency.path, 0) {
                    ContentsView::Data(data) => digests[at].present && digests[at].size
                        == data.len() as u64 && digests[at].digest == md5_digest(data),
                    ContentsView::Missing(message) => !digests[at].present,
                    ContentsView::Failed(message) => false,
                },
            }
        }),
    decreases count,
{
    if at < count - 1 {
        lemma_digest_at(dependencies, loaded, read, count - 1, at);
    } else if count > 1 {
        lemma_digest_at(dependencies, loaded, read, count - 1, 0);
    }
}

/// A build is not taken for one before a file that it depends on was changed: if
/// the digests of the contents differ, or only one of the files is there, the
/// keys are the digests of different bytes.
pub proof fn law_changed_contents_change_the_key(
    machine: Machine,
    paths: Seq<Seq<char>>,
    before: Seq<ReadFile>,
    after: Seq<ReadFile>,
    at: int,
)
    requires
        fingerprint_of(machine, paths, seq![], before) is Ok,
        fingerprint_of(machine, paths, seq![], after) is Ok,
        ({
            let files = normalized(paths, paths.len() as int);
            let count = files.len() as int;
            &&& 0 <= at < count
            &&& are_sized(digests_of(files, seq![], before, count)->Ok_0)
            &&& are_sized(digests_of(files, seq![], after, count)->Ok_0)
            &&& match (read_from(before, files[at].path, 0), read_from(after, files[at].path, 0)) {
                (ContentsView::Data(old), ContentsView::Data(new)) => md5_digest(old)
                    != md5_digest(new) || old.len() as u64 != new.len() as u64,
                (ContentsView::Data(_), ContentsView::Missing(_)) => true,
                (ContentsView::Missing(_), ContentsView::Data(_)) => true,
                _ => false,
            }
        }),
    ensures
        are_of_different_bytes(
            fingerprint_of(machine, paths, seq![], before)->Ok_0,
            fingerprint_of(machine, paths, seq![], after)->Ok_0,
        ),
{
    let files = normalized(paths, paths.len() as int);
    let count = files.len() as int;
    lemma_digest_at(files, seq![], before, count, at);
    lemma_digest_at(files, seq![], after, count, at);
    let first = digests_of(files, seq![], before, count)->Ok_0;
    let second = digests_of(files, seq![], after, count)->Ok_0;
    assert(first[at] != second[at]);
    law_keys_tell_files_apart(machine, first, second);
}

/// The same holds of files whose contents were loaded before.
pub proof fn law_changed_loaded_contents_change_the_key(
    machine: Machine,
    paths: Seq<Seq<char>>,
    before: Seq<DigestView>,
    after: Seq<DigestView>,
    read: Seq<ReadFile>,
    at: int,
)
    requires
        fingerprint_of(machine, paths, before, read) is Ok,
        fingerprint_of(machine, paths, after, read) is Ok,
        ({
            let files = normalized(paths, paths.len() as int);
            let count = files.len() as int;
            &&& 0 <= at < count
            &&& are_sized(digests_of(files, before, read, count)->Ok_0)
            &&& are_sized(digests_of(files, after, read, count)->Ok_0)
            &&& digest_with(before, files[at].key, before.len() as int) is Some
            &&& digest_with(after, files[at].key, after.len() as int) is Some
            &&& digest_with(before, files[at].key, before.len() as int)->0 != digest_with(
                after,
                files[at].key,
                after.len() as int,
            )->0
        }),
    ensures
        are_of_different_bytes(
            fingerprint_of(machine, paths, before, read)->Ok_0,
            fingerprint_of(machine, paths, after, read)->Ok_0,
        ),
{
    let files = normalized(paths, paths.len() as int);
    let count = files.len() as int;
    lemma_digest_at(files, before, read, count, at);
    lemma_digest_at(files, after, read, count, at);
    let first = digests_of(files, before, read, count)->Ok_0;
    let second = digests_of(files, after, read, count)->Ok_0;
    assert(first[at] != second[at]);
    law_keys_tell_files_apart(machine, first, second);
}

/// What is known of the contents of a file that was loaded: that it is there, its
/// size, and the digest of its contents.
pub proof fn law_digests_are_of_the_contents(key: Seq<char>, data: Seq<u8>)
    ensures
        digest_of(key, data).key == key,
        digest_of(key, data).present,
        digest_of(key, data).size == data.len() as u64,
        digest_of(key, data).digest == md5_digest(data),
{
}

proof fn lemma_middle(head: Seq<u8>, a: Seq<u8>, b: Seq<u8>, tail: Seq<u8>)
    requires
        head + a + tail == head + b + tail,
    ensures
        a == b,
{
    let x = head + a + tail;
    let y = head + b + tail;
    assert(x.len() == y.len());
    assert(x.subrange(head.len() as int, (head.len() + a.len()) as int) =~= a);
    assert(y.subrange(head.len() as int, (head.len() + b.len()) as int) =~= b);
}

/// Builds by another version of the compiler, or on another system or another
/// architecture, have the digests of other bytes as their keys.
pub proof fn law_keys_tell_machines_apart(
    first: Machine,
    second: Machine,
    digests: Seq<DigestView>,
)
    requires
        first.programs@ == second.programs@,
        ({
            ||| first.version@ != second.version@ && first.system@ == second.system@
                && first.architecture@ == second.architecture@
            ||| first.version@ == second.version@ && first.system@ != second.system@
                && first.architecture@ == second.architecture@
            ||| first.version@ == second.version@ && first.system@ == second.system@
                && first.architecture@ != second.architecture@
        }),
    ensures
        are_of_different_bytes(build_key(first, digests), build_key(second, digests)),
{
    let programs = programs_bytes(first.programs@, first.programs@.len() as int);
    let files = digests_bytes(digests, digests.len() as int);
    let schema = encode_utf8(crate::cache::BUILD_CACHE_SCHEMA@);
    let x = machine_bytes(first) + files;
    let y = machine_bytes(second) + files;
    if x == y {
        let v = encode_utf8(first.version@);
        let w = encode_utf8(second.version@);
        let s = encode_utf8(first.system@);
        let t = encode_utf8(second.system@);
        let a = encode_utf8(first.architecture@);
        let b = encode_utf8(second.architecture@);
        if first.version@ != second.version@ {
            let tail = s + a + programs + files;
            assert(x =~= schema + v + tail);
            assert(y =~= schema + w + tail);
            lemma_middle(schema, v, w, tail);
            lemma_bytes_determine_text(first.version@, second.version@);
        } else if first.system@ != second.system@ {
            let tail = a + programs + files;
            assert(x =~= schema + v + s + tail);
            assert(y =~= schema + v + t + tail);
            lemma_middle(schema + v, s, t, tail);
            lemma_bytes_determine_text(first.system@, second.system@);
        } else {
            let tail = programs + files;
            assert(x =~= schema + v + s + a + tail);
            assert(y =~= schema + v + s + b + tail);
            lemma_middle(schema + v + s, a, b, tail);
            lemma_bytes_determine_text(first.architecture@, second.architecture@);
        }
    }
    assert(build_key(first, digests) == hex_text(md5_digest(x)));
    assert(build_key(second, digests) == hex_text(md5_digest(y)));
}

/// Whether two states of the file of a program differ in what is known of them.
pub open spec fn differ(first: ProgramMark, second: ProgramMark) -> bool {
    ||| first.size != second.size
    ||| first.size is Some && first.dated != second.dated
    ||| first.size is Some && first.dated && second.dated && (first.modified_seconds
        != second.modified_seconds || first.modified_nanos != second.modified_nanos)
}

proof fn lemma_marks_differ(first: ProgramMark, second: ProgramMark)
    requires
        first.path@ == second.path@,
        differ(first, second),
    ensures
        mark_bytes(first) != mark_bytes(second),
{
    let path = encode_utf8(crate::cache::key_of_path(first.path@));
    if mark_bytes(first) == mark_bytes(second) {
        let end = seq![0u8];
        let a = dated(first);
        let b = dated(second);
        assert(mark_bytes(first) =~= path + (sized(first) + (a + end)));
        assert(mark_bytes(second) =~= path + (sized(second) + (b + end)));
        lemma_same_heads(path, sized(first) + (a + end), path, sized(second) + (b + end));
        if first.size is Some && second.size is Some {
            lemma_same_heads(sized(first), a + end, sized(second), b + end);
            lemma_le64_differs(first.size->0 as int, second.size->0 as int);
            assert((a + end).len() == a.len() + 1);
            assert((b + end).len() == b.len() + 1);
            if first.dated && second.dated {
                lemma_same_heads(a, end, b, end);
                let x = le64(first.modified_seconds as int);
                let y = le64(second.modified_seconds as int);
                let v = le32(first.modified_nanos as int);
                let w = le32(second.modified_nanos as int);
                lemma_same_heads(x, v, y, w);
                lemma_le64_differs(first.modified_seconds as int, second.modified_seconds as int);
                crate::gml::vm::law_word_reads_back(first.modified_nanos as int);
                crate::gml::vm::law_word_reads_back(second.modified_nanos as int);
            }
        }
    }
}

/// The size of a program as it is written.
spec fn sized(mark: ProgramMark) -> Seq<u8> {
    match mark.size {
        Some(size) => le64(size as int),
        None => seq![],
    }
}

/// The time of the last change of a program as it is written.
spec fn dated(mark: ProgramMark) -> Seq<u8> {
    if mark.size is Some && mark.dated {
        le64(mark.modified_seconds as int) + le32(mark.modified_nanos as int)
    } else {
        seq![]
    }
}

proof fn lemma_programs_split(programs: Seq<ProgramMark>, at: int, mark: ProgramMark, count: int)
    requires
        0 <= at < count <= programs.len(),
    ensures
        exists|head: Seq<u8>, tail: Seq<u8>|
            #![trigger head + mark_bytes(mark) + tail]
            programs_bytes(programs, count) == head + mark_bytes(programs[at]) + tail
                && programs_bytes(programs.update(at, mark), count) == head + mark_bytes(mark)
                + tail,
    decreases count,
{
    let changed = programs.update(at, mark);
    if at == count - 1 {
        lemma_programs_before(programs, at, mark, at);
        let head = programs_bytes(programs, at);
        let tail = Seq::<u8>::empty();
        assert(programs_bytes(programs, count) =~= head + mark_bytes(programs[at]) + tail);
        assert(programs_bytes(changed, count) =~= head + mark_bytes(mark) + tail);
    } else {
        lemma_programs_split(programs, at, mark, count - 1);
        let (head, tail) = choose|head: Seq<u8>, tail: Seq<u8>|
            #![trigger head + mark_bytes(mark) + tail]
            programs_bytes(programs, count - 1) == head + mark_bytes(programs[at]) + tail
                && programs_bytes(changed, count - 1) == head + mark_bytes(mark) + tail;
        let longer = tail + mark_bytes(programs[count - 1]);
        assert(programs_bytes(programs, count) =~= head + mark_bytes(programs[at]) + longer);
        assert(programs_bytes(changed, count) =~= head + mark_bytes(mark) + longer);
    }
}

proof fn lemma_programs_before(programs: Seq<ProgramMark>, at: int, mark: ProgramMark, count: int)
    requires
        0 <= count <= at < programs.len(),
    ensures
        programs_bytes(programs.update(at, mark), count) == programs_bytes(programs, count),
    decreases count,
{
    if count > 0 {
        lemma_programs_before(programs, at, mark, count - 1);
    }
}

proof fn lemma_between(a: Seq<u8>, b: Seq<u8>, c: Seq<u8>, d: Seq<u8>, e: Seq<u8>)
    ensures
        a + (b + c + d) + e == (a + b) + c + (d + e),
{
    assert(a + (b + c + d) + e =~= (a + b) + c + (d + e));
}

/// A program that takes part in builds and was changed gives builds the digests of
/// other bytes as their keys.
pub proof fn law_keys_tell_programs_apart(
    first: Machine,
    second: Machine,
    digests: Seq<DigestView>,
    at: int,
)
    requires
        first.version@ == second.version@,
        first.system@ == second.system@,
        first.architecture@ == second.architecture@,
        0 <= at < first.programs@.len(),
        at < second.programs@.len(),
        second.programs@ == first.programs@.update(at, second.programs@[at]),
        first.programs@[at].path@ == second.programs@[at].path@,
        differ(first.programs@[at], second.programs@[at]),
    ensures
        are_of_different_bytes(build_key(first, digests), build_key(second, digests)),
{
    let mark = second.programs@[at];
    let count = first.programs@.len() as int;
    lemma_programs_split(first.programs@, at, mark, count);
    let (head, tail) = choose|head: Seq<u8>, tail: Seq<u8>|
        #![trigger head + mark_bytes(mark) + tail]
        programs_bytes(first.programs@, count) == head + mark_bytes(first.programs@[at]) + tail
            && programs_bytes(first.programs@.update(at, mark), count) == head + mark_bytes(mark)
            + tail;
    lemma_marks_differ(first.programs@[at], mark);
    let files = digests_bytes(digests, digests.len() as int);
    let start = encode_utf8(crate::cache::BUILD_CACHE_SCHEMA@) + encode_utf8(first.version@)
        + encode_utf8(first.system@) + encode_utf8(first.architecture@);
    let x = machine_bytes(first) + files;
    let y = machine_bytes(second) + files;
    lemma_between(start, head, mark_bytes(first.programs@[at]), tail, files);
    lemma_between(start, head, mark_bytes(mark), tail, files);
    if x == y {
        lemma_middle(start + head, mark_bytes(first.programs@[at]), mark_bytes(mark), tail + files);
    }
    assert(build_key(first, digests) == hex_text(md5_digest(x)));
    assert(build_key(second, digests) == hex_text(md5_digest(y)));
}

/// A build depends on the project, its configuration, every resource but other
/// configurations, every loaded file, and the image of every background.
pub proof fn law_builds_depend_on_their_sources(
    project: ProjectManifest,
    config: Config,
    assets: Assets,
    at: int,
)
    ensures
        ({
            let paths = dependencies_of(project, config, assets);
            &&& paths.contains(project.project_file@)
            &&& paths.contains(config@.source)
            &&& 0 <= at < project.resources@.len() && !(project.resources@[at].kind is Config)
                ==> paths.contains(project.resources@[at].source@)
            &&& 0 <= at < assets.binary_files@.len() ==> paths.contains(
                assets.binary_files@[at].source@,
            )
            &&& 0 <= at < assets.backgrounds@.len() && assets.backgrounds@[at].image_source@.len()
                > 0 ==> paths.contains(assets.backgrounds@[at].image_source@)
        }),
{
    let first = seq![project.project_file@, config@.source];
    let count = project.resources@.len() as int;
    let listed = resource_paths(project.resources@, config@.source, first, count);
    let sources = loaded_sources(assets.binary_files@);
    let both = listed + sources;
    let images = assets.backgrounds@.len() as int;
    let paths = dependencies_of(project, config, assets);
    lemma_resources_listed(project.resources@, config@.source, first, count, at);
    lemma_images_listed(assets.backgrounds@, both, images, at);
    assert(first[0] == project.project_file@);
    assert(first[1] == config@.source);
    assert(listed[0] == first[0] && listed[1] == first[1]);
    assert(both[0] == first[0] && both[1] == first[1]);
    assert(paths[0] == first[0] && paths[1] == first[1]);
    if 0 <= at < count && !(project.resources@[at].kind is Config) {
        let k = choose|k: int| 0 <= k < listed.len() && listed[k] == project.resources@[at].source@;
        assert(both[k] == listed[k]);
        assert(paths[k] == both[k]);
    }
    if 0 <= at < assets.binary_files@.len() {
        assert(sources[at] == assets.binary_files@[at].source@);
        assert(both[listed.len() + at] == sources[at]);
        assert(paths[listed.len() + at] == both[listed.len() + at]);
    }
}

proof fn lemma_resources_listed(
    resources: Seq<ResourceRef>,
    config: Seq<char>,
    paths: Seq<Seq<char>>,
    count: int,
    at: int,
)
    requires
        0 <= count <= resources.len(),
    ensures
        ({
            let listed = resource_paths(resources, config, paths, count);
            &&& listed.len() >= paths.len()
            &&& forall|k: int| 0 <= k < paths.len() ==> (#[trigger] listed[k]) == paths[k]
            &&& 0 <= at < count && !(resources[at].kind is Config) ==> listed.contains(
                resources[at].source@,
            )
        }),
    decreases count,
{
    if count > 0 {
        lemma_resources_listed(resources, config, paths, count - 1, at);
        let before = resource_paths(resources, config, paths, count - 1);
        let listed = resource_paths(resources, config, paths, count);
        if 0 <= at < count - 1 && !(resources[at].kind is Config) {
            let k = choose|k: int| 0 <= k < before.len() && before[k] == resources[at].source@;
            assert(listed[k] == before[k]);
        }
        if at == count - 1 && !(resources[at].kind is Config) {
            assert(listed[before.len() as int] == resources[at].source@);
        }
    }
}

proof fn lemma_images_listed(
    backgrounds: Seq<Background>,
    paths: Seq<Seq<char>>,
    count: int,
    at: int,
)
    requires
        0 <= count <= backgrounds.len(),
    ensures
        ({
            let listed = image_paths(backgrounds, paths, count);
            &&& listed.len() >= paths.len()
            &&& forall|k: int| 0 <= k < paths.len() ==> (#[trigger] listed[k]) == paths[k]
            &&& 0 <= at < count && backgrounds[at].image_source@.len() > 0 ==> listed.contains(
                backgrounds[at].image_source@,
            )
        }),
    decreases count,
{
    if count > 0 {
        lemma_images_listed(backgrounds, paths, count - 1, at);
        let before = image_paths(backgrounds, paths, count - 1);
        let listed = image_paths(backgrounds, paths, count);
        if 0 <= at < count - 1 && backgrounds[at].image_source@.len() > 0 {
            let k = choose|k: int|
                0 <= k < before.len() && before[k] == backgrounds[at].image_source@;
            assert(listed[k] == before[k]);
        }
        if at == count - 1 && backgrounds[at].image_source@.len() > 0 {
            assert(listed[before.len() as int] == backgrounds[at].image_source@);
        }
    }
}

/// A build whose files are all unchanged has every file in the state that was
/// saved, and none of them in a state that does not tell.
pub proof fn law_unchanged_files_are_as_saved(
    saved: Seq<SavedView>,
    current: Seq<DependencyStamp>,
    at: int,
)
    requires
        all_unchanged(saved, current),
        0 <= at < saved.len(),
    ensures
        current[at].kind == saved[at].stamp.kind,
        current[at].size == saved[at].stamp.size,
        current[at].modified_seconds == saved[at].stamp.modified_seconds,
        current[at].modified_nanos == saved[at].stamp.modified_nanos,
        current[at].kind != 1,
{
}

/// The caches of a project with different configurations are told apart by the
/// digests of different bytes.
pub proof fn law_caches_of_configurations_differ(
    project: Seq<char>,
    first: Seq<char>,
    second: Seq<char>,
)
    requires
        first != second,
    ensures
        cache_identity(project, first) != cache_identity(project, second),
{
    let head = encode_utf8(crate::cache::BUILD_CACHE_SCHEMA@) + encode_utf8(
        crate::cache::key_of_path(project),
    ) + seq![0u8];
    let x = cache_identity(project, first);
    let y = cache_identity(project, second);
    if x == y {
        assert(x.skip(head.len() as int) =~= encode_utf8(first));
        assert(y.skip(head.len() as int) =~= encode_utf8(second));
        lemma_bytes_determine_text(first, second);
    }
}

/// The spelling of a digest determines it.
pub proof fn law_spelled_digests_determine_them(first: Seq<u8>, second: Seq<u8>)
    requires
        hex_text(first) == hex_text(second),
    ensures
        first == second,
{
    lemma_hex_length(first, first.len() as int);
    lemma_hex_length(second, second.len() as int);
    assert(first.len() == second.len());
    lemma_hex_determines(first, second, first.len() as int);
    assert(first =~= second);
}

proof fn lemma_hex_length(bytes: Seq<u8>, count: int)
    requires
        0 <= count,
    ensures
        hex_digits(bytes, count).len() == 2 * count,
    decreases count,
{
    if count > 0 {
        lemma_hex_length(bytes, count - 1);
    }
}

proof fn lemma_hex_determines(first: Seq<u8>, second: Seq<u8>, count: int)
    requires
        0 <= count <= first.len(),
        first.len() == second.len(),
        hex_digits(first, count) == hex_digits(second, count),
    ensures
        forall|k: int| 0 <= k < count ==> first[k] == second[k],
    decreases count,
{
    if count > 0 {
        let a = hex_digits(first, count);
        let b = hex_digits(second, count);
        lemma_hex_length(first, count - 1);
        lemma_hex_length(second, count - 1);
        assert(a.subrange(0, 2 * count - 2) =~= hex_digits(first, count - 1));
        assert(b.subrange(0, 2 * count - 2) =~= hex_digits(second, count - 1));
        lemma_hex_determines(first, second, count - 1);
        assert(a[2 * count - 2] == digit(first[count - 1] as int / 16));
        assert(b[2 * count - 2] == digit(second[count - 1] as int / 16));
        assert(a[2 * count - 1] == digit(first[count - 1] as int % 16));
        assert(b[2 * count - 1] == digit(second[count - 1] as int % 16));
    }
}

} // verus!
