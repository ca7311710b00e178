//! What a Go project's Dockerfile is made of: the Go version that its
//! `go.mod` names, and the Dockerfile text built around that version.

use vstd::prelude::*;

use crate::text::{
    chars_of, find_char, find_char_in, join_with, lemma_find_char, lemma_replaced_absent,
    lemma_replaced_match, lemma_replaced_skip, replace_all, replaced, split_on, str_eq,
    trim_bounds, trimmed,
};

verus! {

/// What a `go` directive starts with.
pub open spec fn go_prefix() -> Seq<char> {
    seq!['g', 'o', ' ']
}

/// The version that the first `go` directive among `lines` names: the rest
/// of the first trimmed line that begins with `go `.
pub open spec fn go_directive(lines: Seq<Seq<char>>) -> Option<Seq<char>>
    decreases lines.len(),
{
    if lines.len() == 0 {
        None
    } else {
        let t = trimmed(lines[0]);
        if t.len() >= 3 && t.take(3) == go_prefix() {
            Some(t.skip(3))
        } else {
            go_directive(lines.drop_first())
        }
    }
}

/// The first two dot-separated parts of a version, joined by a dot:
/// `1.21.5` gives `1.21`, `1.22` stays `1.22`.
pub open spec fn short_version(v: Seq<char>) -> Seq<char> {
    join_with(first_parts(split_on(v, '.'), 2), '.')
}

/// The first `n` of `parts`, or all of them where there are fewer.
pub open spec fn first_parts(parts: Seq<Seq<char>>, n: nat) -> Seq<Seq<char>> {
    if parts.len() <= n {
        parts
    } else {
        parts.take(n as int)
    }
}

/// The short Go version that a `go.mod` file declares, if it declares one.
/// The lines are the pieces between line feeds; the line ends that
/// `str::lines` takes off besides, and a last empty line, make no
/// difference once a line is trimmed.
pub open spec fn mod_go_version(content: Seq<char>) -> Option<Seq<char>> {
    match go_directive(split_on(content, '\n')) {
        Some(v) => Some(short_version(v)),
        None => None,
    }
}

/// The first line that, trimmed, starts with `go ` gives the directive.
proof fn lemma_go_directive_at(lines: Seq<Seq<char>>, k: int)
    requires
        0 <= k < lines.len(),
        trimmed(lines[k]).len() >= 3,
        trimmed(lines[k]).take(3) == seq!['g', 'o', ' '],
        forall|j: int|
            0 <= j < k ==> !(trimmed(#[trigger] lines[j]).len() >= 3 && trimmed(lines[j]).take(3)
                == seq!['g', 'o', ' ']),
    ensures
        go_directive(lines) == Some(trimmed(lines[k]).skip(3)),
    decreases k,
{
    if k > 0 {
        let rest = lines.drop_first();
        assert(!(trimmed(lines[0]).len() >= 3 && trimmed(lines[0]).take(3) == seq!['g', 'o', ' ']));
        assert forall|j: int| 0 <= j < k - 1 implies !(trimmed(#[trigger] rest[j]).len() >= 3
            && trimmed(rest[j]).take(3) == seq!['g', 'o', ' ']) by {
            assert(rest[j] == lines[j + 1]);
        }
        assert(rest[k - 1] == lines[k]);
        lemma_go_directive_at(rest, k - 1);
    }
}

/// Where no trimmed line starts with `go `, there is no directive.
proof fn lemma_go_directive_none(lines: Seq<Seq<char>>)
    requires
        forall|j: int|
            0 <= j < lines.len() ==> !(trimmed(#[trigger] lines[j]).len() >= 3 && trimmed(
                lines[j],
            ).take(3) == seq!['g', 'o', ' ']),
    ensures
        go_directive(lines) is None,
    decreases lines.len(),
{
    if lines.len() > 0 {
        let rest = lines.drop_first();
        assert(!(trimmed(lines[0]).len() >= 3 && trimmed(lines[0]).take(3) == seq!['g', 'o', ' ']));
        assert forall|j: int| 0 <= j < rest.len() implies !(trimmed(#[trigger] rest[j]).len() >= 3
            && trimmed(rest[j]).take(3) == seq!['g', 'o', ' ']) by {
            assert(rest[j] == lines[j + 1]);
        }
        lemma_go_directive_none(rest);
    }
}

/// The version comes from the first line of the file that, with white
/// space trimmed from both ends, starts with `go `: what follows `go ` on
/// that trimmed line, cut to its first two dot-separated parts. Lines are
/// the pieces between line feeds, so a carriage return or other white space
/// at a line's end is never part of the version.
pub proof fn law_version_from_trimmed_line(content: Seq<char>, k: int)
    requires
        0 <= k < split_on(content, '\n').len(),
        trimmed(split_on(content, '\n')[k]).len() >= 3,
        trimmed(split_on(content, '\n')[k]).take(3) == seq!['g', 'o', ' '],
        forall|j: int|
            0 <= j < k ==> !(trimmed(#[trigger] split_on(content, '\n')[j]).len() >= 3
                && trimmed(split_on(content, '\n')[j]).take(3) == seq!['g', 'o', ' ']),
    ensures
        mod_go_version(content) == Some(
            short_version(trimmed(split_on(content, '\n')[k]).skip(3)),
        ),
{
    lemma_go_directive_at(split_on(content, '\n'), k);
}

/// A file none of whose trimmed lines starts with `go ` declares no
/// version.
pub proof fn law_no_go_line(content: Seq<char>)
    requires
        forall|j: int|
            0 <= j < split_on(content, '\n').len() ==> !(trimmed(
                #[trigger] split_on(content, '\n')[j],
            ).len() >= 3 && trimmed(split_on(content, '\n')[j]).take(3) == seq!['g', 'o', ' ']),
    ensures
        mod_go_version(content) is None,
{
    lemma_go_directive_none(split_on(content, '\n'));
}

/// The short version is what comes before the second dot, or all of `v`
/// where there is no second dot.
pub proof fn law_short_version(v: Seq<char>)
    ensures
        match find_char(v, '.') {
            None => short_version(v) == v,
            Some(i) => match find_char(v.skip(i + 1), '.') {
                None => short_version(v) == v,
                Some(j) => short_version(v) == v.take(i + 1 + j),
            },
        },
{
    lemma_find_char(v, '.');
    match find_char(v, '.') {
        None => {
            assert(split_on(v, '.') == seq![v]);
            assert(first_parts(split_on(v, '.'), 2) =~= seq![v]);
        },
        Some(i) => {
            let rest = v.skip(i + 1);
            lemma_find_char(rest, '.');
            assert(split_on(v, '.') == seq![v.take(i)] + split_on(rest, '.'));
            match find_char(rest, '.') {
                None => {
                    assert(split_on(rest, '.') == seq![rest]);
                    let parts = first_parts(split_on(v, '.'), 2);
                    assert(parts =~= seq![v.take(i), rest]);
                    assert(parts.drop_first() =~= seq![rest]);
                    assert(join_with(parts.drop_first(), '.') == rest);
                    assert(join_with(parts, '.') == v.take(i) + seq!['.'] + rest);
                    assert(v.take(i) + seq!['.'] + rest =~= v);
                },
                Some(j) => {
                    assert(split_on(rest, '.') == seq![rest.take(j)] + split_on(
                        rest.skip(j + 1),
                        '.',
                    ));
                    let parts = first_parts(split_on(v, '.'), 2);
                    assert(parts =~= seq![v.take(i), rest.take(j)]);
                    assert(parts.drop_first() =~= seq![rest.take(j)]);
                    assert(join_with(parts.drop_first(), '.') == rest.take(j));
                    assert(join_with(parts, '.') == v.take(i) + seq!['.'] + rest.take(j));
                    assert(v.take(i) + seq!['.'] + rest.take(j) =~= v.take(i + 1 + j));
                },
            }
        },
    }
}

/// The end of the short version within `chars[lo..hi]`.
fn short_version_end(chars: &Vec<char>, lo: usize, hi: usize) -> (e: usize)
    requires
        lo <= hi <= chars.len(),
    ensures
        lo <= e <= hi,
        chars@.subrange(lo as int, e as int) == short_version(
            chars@.subrange(lo as int, hi as int),
        ),
{
    let ghost v = chars@.subrange(lo as int, hi as int);
    proof {
        law_short_version(v);
    }
    match find_char_in(chars, '.', lo, hi) {
        None => {
            hi
        },
        Some(i) => {
            assert(v.skip(i - lo + 1) =~= chars@.subrange(i + 1, hi as int));
            match find_char_in(chars, '.', i + 1, hi) {
                None => hi,
                Some(j) => {
                    assert(v.take(i - lo + 1 + (j - (i + 1))) =~= chars@.subrange(
                        lo as int,
                        j as int,
                    ));
                    j
                },
            }
        },
    }
}

/// The short Go version declared in the text of a `go.mod` file: the version
/// of its first `go` directive, cut to its first two parts (`go 1.21.5`
/// gives `1.21`). `None` where no line is a `go` directive.
pub fn go_mod_version(content: &str) -> (r: Option<String>)
    ensures
        r.deep_view() == mod_go_version(content@),
{
    let chars = chars_of(content);
    let n: usize = chars.len();
    let mut start: usize = 0;
    assert(chars@.subrange(0, n as int) =~= chars@);
    loop
        invariant
            start <= n == chars@.len(),
            chars@ == content@,
            go_directive(split_on(content@, '\n')) == go_directive(
                split_on(chars@.subrange(start as int, n as int), '\n'),
            ),
        decreases n - start,
    {
        let ghost rest = chars@.subrange(start as int, n as int);
        let found = find_char_in(&chars, '\n', start, n);
        let end: usize = match found {
            Some(k) => k,
            None => n,
        };
        let ghost line = chars@.subrange(start as int, end as int);
        proof {
            match found {
                Some(k) => {
                    assert(rest.take(k - start) =~= line);
                    assert(rest.skip(k - start + 1) =~= chars@.subrange(k + 1, n as int));
                    assert(split_on(rest, '\n') == seq![line] + split_on(
                        chars@.subrange(k + 1, n as int),
                        '\n',
                    ));
                    assert((seq![line] + split_on(chars@.subrange(k + 1, n as int), '\n')).drop_first()
                        =~= split_on(chars@.subrange(k + 1, n as int), '\n'));
                },
                None => {
                    assert(rest =~= line);
                    assert(split_on(rest, '\n') == seq![line]);
                    assert(seq![line].drop_first() =~= Seq::<Seq<char>>::empty());
                },
            }
        }
        let (a, b): (usize, usize) = trim_bounds(&chars, start, end);
        let ghost t = trimmed(line);
        if b - a >= 3 && chars[a] == 'g' && chars[a + 1] == 'o' && chars[a + 2] == ' ' {
            assert(t.take(3) =~= go_prefix());
            assert(t.skip(3) =~= chars@.subrange(a + 3, b as int));
            let e: usize = short_version_end(&chars, a + 3, b);
            let v = content.substring_char(a + 3, e).to_owned();
            return Some(v);
        }
        assert(!(t.len() >= 3 && t.take(3) == go_prefix())) by {
            if t.len() >= 3 && t.take(3) == go_prefix() {
                assert(t.take(3)[0] == chars@[a as int]);
                assert(t.take(3)[1] == chars@[a + 1]);
                assert(t.take(3)[2] == chars@[a + 2]);
            }
        }
        if end == n {
            assert(go_directive(seq![line].drop_first()) == None::<Seq<char>>);
            return None;
        }
        start = end + 1;
    }
}

/// Whether an entry of this name is a `go.mod` file.
pub fn is_go_mod(name: &str) -> (r: bool)
    ensures
        r == (name@ == "go.mod"@),
{
    str_eq(name, "go.mod")
}

/// The Dockerfile for a Go project: a build stage on the Alpine image of
/// the project's Go version, and a small run stage. The placeholder stands
/// for the Go version.
pub const DOCKERFILE_TEMPLATE: &'static str = r#"FROM golang:{GO_VERSION}-alpine AS builder

    WORKDIR /app

    # Install git (needed for go mod)
    RUN apk add --no-cache git

    # Copy go mod files
    COPY go.mod go.sum ./
    RUN go mod download

    # Copy source code
    COPY . .

    # Build binary
    RUN CGO_ENABLED=0 GOOS=linux GOARCH=amd64 go build -o app .

    # ===== Run stage =====
    FROM alpine:latest

    WORKDIR /app

    # Add CA certificates
    RUN apk add --no-cache ca-certificates

    # Copy binary from builder
    COPY --from=builder /app/app .

    # Copy uploads folder if exists
    COPY uploads ./uploads

    EXPOSE 8084

    CMD ["./app"]"#;

/// Where the Dockerfile template takes the Go version.
pub const GO_VERSION_PLACEHOLDER: &'static str = "{GO_VERSION}";

/// The Dockerfile for Go version `v`: the template with every placeholder
/// replaced by `v`.
pub open spec fn dockerfile_for(v: Seq<char>) -> Seq<char> {
    replaced(DOCKERFILE_TEMPLATE@, GO_VERSION_PLACEHOLDER@, v)
}

/// The Dockerfile for a Go project built with Go `go_version`: the template
/// with the version in place of its placeholder.
pub fn generate_docker_content(go_version: &str) -> (r: String)
    ensures
        r@ == dockerfile_for(go_version@),
{
    proof {
        reveal_strlit("{GO_VERSION}");
    }
    replace_all(DOCKERFILE_TEMPLATE, GO_VERSION_PLACEHOLDER, go_version)
}

/// Where the placeholder stands in the template: once, right after
/// `FROM golang:`, and no other `{` is in the template.
proof fn lemma_template_layout()
    ensures
        DOCKERFILE_TEMPLATE@.len() == 633,
        GO_VERSION_PLACEHOLDER@.len() == 12,
        GO_VERSION_PLACEHOLDER@[0] == '{',
        DOCKERFILE_TEMPLATE@.subrange(12, 24) == GO_VERSION_PLACEHOLDER@,
        DOCKERFILE_TEMPLATE@.take(12) == "FROM golang:"@,
        forall|i: int|
            0 <= i < 633 && !(12 <= i < 24) ==> DOCKERFILE_TEMPLATE@[i] != '{',
{
    reveal_strlit("{GO_VERSION}");
    reveal_strlit("FROM golang:");
    reveal_strlit(r#"FROM golang:{GO_VERSION}-alpine AS builder

    WORKDIR /app

    # Install git (needed for go mod)
    RUN apk add --no-cache git

    # Copy go mod files
    COPY go.mod go.sum ./
    RUN go mod download

    # Copy source code
    COPY . .

    # Build binary
    RUN CGO_ENABLED=0 GOOS=linux GOARCH=amd64 go build -o app .

    # ===== Run stage =====
    FROM alpine:latest

    WORKDIR /app

    # Add CA certificates
    RUN apk add --no-cache ca-certificates

    # Copy binary from builder
    COPY --from=builder /app/app .

    # Copy uploads folder if exists
    COPY uploads ./uploads

    EXPOSE 8084

    CMD ["./app"]"#);
    assert(DOCKERFILE_TEMPLATE@.subrange(12, 24) =~= GO_VERSION_PLACEHOLDER@);
    assert(DOCKERFILE_TEMPLATE@.take(12) =~= "FROM golang:"@);
}

/// The Dockerfile for `v` is `FROM golang:`, then `v`, then the rest of the
/// template after the placeholder.
pub proof fn law_dockerfile_layout(v: Seq<char>)
    ensures
        dockerfile_for(v) == "FROM golang:"@ + v + DOCKERFILE_TEMPLATE@.skip(24),
{
    lemma_template_layout();
    let t = DOCKERFILE_TEMPLATE@;
    let ph = GO_VERSION_PLACEHOLDER@;
    lemma_replaced_skip(t, ph, v, 12);
    let rest = t.skip(12);
    assert(rest.take(12) =~= t.subrange(12, 24));
    lemma_replaced_match(rest, ph, v);
    assert(rest.skip(12) =~= t.skip(24));
    assert forall|i: int| 0 <= i < t.skip(24).len() implies t.skip(24)[i] != ph[0] by {
        assert(t.skip(24)[i] == t[i + 24]);
    }
    lemma_replaced_absent(t.skip(24), ph, v);
}

/// The Dockerfile grows with the version by exactly the version's length.
pub proof fn law_dockerfile_length(v: Seq<char>)
    ensures
        dockerfile_for(v).len() == v.len() + dockerfile_for(Seq::empty()).len(),
{
    law_dockerfile_layout(v);
    law_dockerfile_layout(Seq::empty());
}

/// The version can be read back from its Dockerfile: it stands after the
/// first 12 characters, before what the template holds after the version.
pub proof fn law_dockerfile_read_back(v: Seq<char>)
    ensures
        dockerfile_for(v).subrange(
            12,
            dockerfile_for(v).len() - (dockerfile_for(Seq::empty()).len() - 12),
        ) == v,
{
    law_dockerfile_layout(v);
    law_dockerfile_layout(Seq::empty());
    lemma_template_layout();
    assert(dockerfile_for(v).subrange(
        12,
        dockerfile_for(v).len() - (dockerfile_for(Seq::empty()).len() - 12),
    ) =~= v);
}

/// Different versions give different Dockerfiles.
pub proof fn law_dockerfile_injective(a: Seq<char>, b: Seq<char>)
    ensures
        dockerfile_for(a) == dockerfile_for(b) <==> a == b,
{
    law_dockerfile_read_back(a);
    law_dockerfile_read_back(b);
}

/// The version that a walk of a project finds, given the `go.mod` files it
/// meets in order (`None` for one that could not be read): the first one
/// that could not be read ends the search with nothing, the first that
/// declares a version ends it with that version, and one that declares none
/// is passed over.
pub open spec fn go_mod_search(mods: Seq<Option<Seq<char>>>) -> Option<Seq<char>>
    decreases mods.len(),
{
    if mods.len() == 0 {
        None
    } else {
        match mods[0] {
            None => None,
            Some(content) => match mod_go_version(content) {
                Some(v) => Some(v),
                None => go_mod_search(mods.drop_first()),
            },
        }
    }
}

/// The first `go.mod` that declares a version gives it, where every file met
/// before it was read and declares none.
pub proof fn law_first_declared_version(mods: Seq<Option<Seq<char>>>, k: int, content: Seq<char>)
    requires
        0 <= k < mods.len(),
        mods[k] == Some(content),
        mod_go_version(content) is Some,
        forall|j: int|
            0 <= j < k ==> (#[trigger] mods[j]) is Some && mod_go_version(mods[j]->0) is None,
    ensures
        go_mod_search(mods) == mod_go_version(content),
    decreases k,
{
    if k > 0 {
        let rest = mods.drop_first();
        assert(mods[0] is Some);
        assert forall|j: int| 0 <= j < k - 1 implies (#[trigger] rest[j]) is Some
            && mod_go_version(rest[j]->0) is None by {
            assert(rest[j] == mods[j + 1]);
        }
        assert(rest[k - 1] == mods[k]);
        law_first_declared_version(rest, k - 1, content);
    }
}

/// A `go.mod` that could not be read ends the search with nothing, where
/// every file met before it was read and declares no version.
pub proof fn law_unreadable_stops(mods: Seq<Option<Seq<char>>>, k: int)
    requires
        0 <= k < mods.len(),
        mods[k] is None,
        forall|j: int|
            0 <= j < k ==> (#[trigger] mods[j]) is Some && mod_go_version(mods[j]->0) is None,
    ensures
        go_mod_search(mods) is None,
    decreases k,
{
    if k > 0 {
        let rest = mods.drop_first();
        assert(mods[0] is Some);
        assert forall|j: int| 0 <= j < k - 1 implies (#[trigger] rest[j]) is Some
            && mod_go_version(rest[j]->0) is None by {
            assert(rest[j] == mods[j + 1]);
        }
        assert(rest[k - 1] == mods[k]);
        law_unreadable_stops(rest, k - 1);
    }
}

/// Where every `go.mod` was read and none declares a version, there is no
/// version.
pub proof fn law_no_declared_version(mods: Seq<Option<Seq<char>>>)
    requires
        forall|j: int|
            0 <= j < mods.len() ==> (#[trigger] mods[j]) is Some && mod_go_version(mods[j]->0)
                is None,
    ensures
        go_mod_search(mods) is None,
    decreases mods.len(),
{
    if mods.len() > 0 {
        let rest = mods.drop_first();
        assert(mods[0] is Some);
        assert forall|j: int| 0 <= j < rest.len() implies (#[trigger] rest[j]) is Some
            && mod_go_version(rest[j]->0) is None by {
            assert(rest[j] == mods[j + 1]);
        }
        law_no_declared_version(rest);
    }
}

/// What one `go.mod` file met by a walk decides.
#[derive(Debug, PartialEq, Eq)]
pub enum GoModOutcome {
    /// The search ends, with this version or none.
    Done(Option<String>),
    /// The file declares no version: the walk goes on.
    KeepLooking,
}

/// What the search learns from one `go.mod` file, given its text, or `None`
/// where it could not be read: an unreadable file ends the search with
/// nothing, a file that declares a version ends it with that version, and
/// any other file is passed over.
pub fn go_mod_outcome(content: Option<&String>) -> (r: GoModOutcome)
    ensures
        match content {
            None => r == GoModOutcome::Done(None),
            Some(c) => match mod_go_version(c@) {
                Some(v) => r matches GoModOutcome::Done(Some(found)) && found@ == v,
                None => r == GoModOutcome::KeepLooking,
            },
        },
{
    match content {
        None => GoModOutcome::Done(None),
        Some(c) => match go_mod_version(c.as_str()) {
            Some(v) => GoModOutcome::Done(Some(v)),
            None => GoModOutcome::KeepLooking,
        },
    }
}

/// The short Go version of a project, from the contents of the `go.mod`
/// files that a walk of it meets, in the order met (`None` for a file that
/// could not be read).
pub fn dockerfile_go(go_mods: &Vec<Option<String>>) -> (r: Option<String>)
    ensures
        r.deep_view() == go_mod_search(go_mods.deep_view()),
{
    let ghost all = go_mods.deep_view();
    let mut i: usize = 0;
    assert(all.skip(0) =~= all);
    while i < go_mods.len()
        invariant
            i <= go_mods.len(),
            all == go_mods.deep_view(),
            go_mod_search(all) == go_mod_search(all.skip(i as int)),
        decreases go_mods.len() - i,
    {
        assert(all.skip(i as int)[0] == go_mods[i as int].deep_view());
        assert(all.skip(i as int).drop_first() =~= all.skip(i + 1));
        match go_mod_outcome(go_mods[i].as_ref()) {
            GoModOutcome::Done(v) => {
                return v;
            },
            GoModOutcome::KeepLooking => {},
        }
        i = i + 1;
    }
    None
}

} // verus!
