//! Text codecs for the persistence formats: separator-split strings, the
//! vertex list encoding, and the outline path commands.

use vstd::prelude::*;

verus! {

use crate::model::Vertex;
use crate::numfmt::{
    all_digits, char_pos, dec_digits, frac_digits, is_digit, lemma_char_pos_none,
    lemma_char_pos_of_first, lemma_scaled_str_val, parse_scaled, fmt_scaled, scaled_str,
    scaled_val,
};

/// `s` split at every occurrence of `sep`, empty pieces kept.
pub open spec fn split_spec(s: Seq<char>, sep: char) -> Seq<Seq<char>>
    decreases s.len(),
{
    match char_pos(s, sep) {
        None => seq![s],
        Some(i) => if 0 <= i < s.len() {
            seq![s.take(i)] + split_spec(s.subrange(i + 1, s.len() as int), sep)
        } else {
            seq![s]
        },
    }
}

/// Pieces joined with a single separator between them.
pub open spec fn join_spec(ts: Seq<Seq<char>>, sep: char) -> Seq<char>
    decreases ts.len(),
{
    if ts.len() == 0 {
        Seq::empty()
    } else if ts.len() == 1 {
        ts[0]
    } else {
        ts[0] + seq![sep] + join_spec(ts.subrange(1, ts.len() as int), sep)
    }
}

/// Appending one more piece appends one separator and the piece.
pub proof fn lemma_join_push(ts: Seq<Seq<char>>, t: Seq<char>, sep: char)
    requires
        ts.len() >= 1,
    ensures
        join_spec(ts.push(t), sep) =~= join_spec(ts, sep) + seq![sep] + t,
    decreases ts.len(),
{
    if ts.len() == 1 {
        let p = ts.push(t);
        assert(p.len() == 2);
        assert(p[0] == ts[0]);
        assert(p.subrange(1, 2) =~= seq![t]);
        assert(join_spec(p.subrange(1, 2), sep) == t);
    } else {
        let p = ts.push(t);
        assert(p[0] == ts[0]);
        assert(p.subrange(1, p.len() as int) =~= ts.subrange(1, ts.len() as int).push(t));
        lemma_join_push(ts.subrange(1, ts.len() as int), t, sep);
    }
}

/// Splitting a join recovers the pieces, provided no piece contains the
/// separator.
pub proof fn lemma_split_join(ts: Seq<Seq<char>>, sep: char)
    requires
        ts.len() >= 1,
        forall|k: int, c: int|
            0 <= k < ts.len() && 0 <= c < ts[k].len() ==> #[trigger] ts[k][c] != sep,
    ensures
        split_spec(join_spec(ts, sep), sep) =~= ts,
    decreases ts.len(),
{
    let s = join_spec(ts, sep);
    if ts.len() == 1 {
        assert(s == ts[0]);
        assert forall|c: int| 0 <= c < s.len() implies s[c] != sep by {
            assert(ts[0][c] != sep);
        }
        lemma_char_pos_none(s, sep);
        assert(split_spec(s, sep) =~= seq![ts[0]]);
    } else {
        let rest = ts.subrange(1, ts.len() as int);
        assert(s == ts[0] + seq![sep] + join_spec(rest, sep));
        let i = ts[0].len() as int;
        assert(s[i] == sep);
        assert forall|k: int| 0 <= k < i implies s[k] != sep by {
            assert(s[k] == ts[0][k]);
        }
        lemma_char_pos_of_first(s, sep, i);
        assert(s.take(i) =~= ts[0]);
        assert(s.subrange(i + 1, s.len() as int) =~= join_spec(rest, sep));
        assert forall|k: int, c: int|
            0 <= k < rest.len() && 0 <= c < rest[k].len() implies #[trigger] rest[k][c]
            != sep by {
            assert(rest[k] == ts[k + 1]);
        }
        lemma_split_join(rest, sep);
    }
}

/// Split a string at every occurrence of `sep`, keeping empty pieces.
pub fn split_char(s: &str, sep: char) -> (r: Vec<String>)
    ensures
        r@.map_values(|t: String| t@) =~= split_spec(s@, sep),
        r@.len() >= 1,
    decreases s@.len(),
{
    let n = s.unicode_len();
    let mut pos: Option<usize> = None;
    let mut j: usize = 0;
    while j < n && pos.is_none()
        invariant
            0 <= j <= n,
            n == s@.len(),
            forall|k: int| 0 <= k < j ==> s@[k] != sep,
            match pos {
                Some(d) => d == j && j < n && s@[j as int] == sep,
                None => true,
            },
        decreases n - j, (if pos is Some { 0int } else { 1int }),
    {
        if s.get_char(j) == sep {
            pos = Some(j);
        } else {
            j = j + 1;
        }
    }
    match pos {
        None => {
            proof {
                lemma_char_pos_none(s@, sep);
            }
            let mut out: Vec<String> = Vec::new();
            out.push(s.to_owned());
            proof {
                assert(out@.map_values(|t: String| t@) =~= seq![s@]);
            }
            out
        },
        Some(j) => {
            proof {
                lemma_char_pos_of_first(s@, sep, j as int);
            }
            let head = s.substring_char(0, j);
            let tail = s.substring_char(j + 1, n);
            proof {
                assert(head@ =~= s@.take(j as int));
                assert(tail@ =~= s@.subrange(j + 1, n as int));
            }
            let mut out = split_char(tail, sep);
            out.insert(0, head.to_owned());
            proof {
                assert(out@.map_values(|t: String| t@) =~= seq![s@.take(j as int)] + split_spec(
                    s@.subrange(j + 1, n as int),
                    sep,
                ));
            }
            out
        },
    }
}

/// The encoding of one vertex: both fixed-point coordinates, separated by a
/// comma.
pub open spec fn vertex_str(v: Vertex) -> Seq<char> {
    scaled_str(v.x as int, 3) + seq![','] + scaled_str(v.y as int, 3)
}

/// The encodings of every vertex of a list, in order.
pub open spec fn vertex_strs(vs: Seq<Vertex>) -> Seq<Seq<char>> {
    vs.map_values(|v: Vertex| vertex_str(v))
}

/// The encoding of a vertex list: vertex encodings separated by semicolons;
/// the empty list encodes as the empty string.
pub open spec fn vertices_str(vs: Seq<Vertex>) -> Seq<char> {
    if vs.len() == 0 {
        Seq::empty()
    } else {
        join_spec(vertex_strs(vs), ';')
    }
}

/// Every character of a fixed-point rendering is a digit, a minus sign or a
/// dot.
pub proof fn lemma_scaled_str_chars(v: int, p: nat)
    ensures
        forall|c: int|
            0 <= c < scaled_str(v, p).len() ==> is_digit(#[trigger] scaled_str(v, p)[c])
                || scaled_str(v, p)[c] == '-' || scaled_str(v, p)[c] == '.',
{
    let mag = if v < 0 {
        -v
    } else {
        v
    };
    crate::numfmt::lemma_pow10_pos(p);
    assert(mag / crate::numfmt::pow10(p) >= 0) by (nonlinear_arith)
        requires
            mag >= 0,
            crate::numfmt::pow10(p) >= 1,
    ;
    vstd::arithmetic::div_mod::lemma_mod_bound(mag, crate::numfmt::pow10(p));
    let q = (mag / crate::numfmt::pow10(p)) as nat;
    let r = (mag % crate::numfmt::pow10(p)) as nat;
    crate::numfmt::lemma_dec_digits(q);
    crate::numfmt::lemma_frac_digits(r, p);
    let s = scaled_str(v, p);
    assert forall|c: int| 0 <= c < s.len() implies is_digit(#[trigger] s[c]) || s[c] == '-'
        || s[c] == '.' by {
        let sign: Seq<char> = if v < 0 {
            seq!['-']
        } else {
            Seq::empty()
        };
        let ds = dec_digits(q);
        let fs = frac_digits(r, p);
        assert(s == sign + ds + seq!['.'] + fs);
        if c < sign.len() {
            assert(s[c] == '-');
        } else if c < sign.len() + ds.len() {
            assert(s[c] == ds[c - sign.len()]);
            assert(is_digit(ds[c - sign.len()]));
        } else if c == sign.len() + ds.len() {
            assert(s[c] == '.');
        } else {
            assert(s[c] == fs[c - sign.len() - ds.len() - 1]);
            assert(is_digit(fs[c - sign.len() - ds.len() - 1]));
        }
    }
}

/// Render a vertex list as its string encoding.
pub fn fmt_vertices(vs: &Vec<Vertex>) -> (s: String)
    ensures
        s@ == vertices_str(vs@),
{
    let mut s = String::new();
    let mut i: usize = 0;
    proof {
        reveal_strlit(",");
        reveal_strlit(";");
    }
    while i < vs.len()
        invariant
            0 <= i <= vs@.len(),
            s@ == vertices_str(vs@.take(i as int)),
        decreases vs@.len() - i,
    {
        let v = vs[i];
        if i > 0 {
            s.append(";");
        }
        let xs = fmt_scaled(v.x, 3);
        s.append(xs.as_str());
        s.append(",");
        let ys = fmt_scaled(v.y, 3);
        s.append(ys.as_str());
        proof {
            reveal_strlit(";");
            reveal_strlit(",");
            assert(";"@ =~= seq![';']);
            assert(","@ =~= seq![',']);
            let prev = vertex_strs(vs@.take(i as int));
            let cur = vertex_strs(vs@.take(i + 1));
            assert(cur =~= prev.push(vertex_str(vs@[i as int])));
            if i > 0 {
                lemma_join_push(prev, vertex_str(vs@[i as int]), ';');
                assert(s@ =~= join_spec(prev, ';') + seq![';'] + vertex_str(vs@[i as int]));
                assert(s@ =~= join_spec(cur, ';'));
            } else {
                assert(cur.len() == 1);
                assert(s@ =~= vertex_str(vs@[0]));
                assert(join_spec(cur, ';') == cur[0]);
            }
            assert(s@ =~= vertices_str(vs@.take(i + 1)));
        }
        i = i + 1;
    }
    proof {
        assert(vs@.take(vs@.len() as int) =~= vs@);
    }
    s
}

/// The vertex one piece denotes: the text before its first comma and the
/// text after it must both read as fixed-point values that fit; any other
/// piece denotes nothing.
pub open spec fn spec_parse_vertex(t: Seq<char>) -> Option<Vertex> {
    match char_pos(t, ',') {
        None => None,
        Some(j) => {
            let xv = scaled_val(t.take(j), 3);
            let yv = scaled_val(t.subrange(j + 1, t.len() as int), 3);
            if xv is Some && -i64::MAX <= xv->0 <= i64::MAX && yv is Some && -i64::MAX <= yv->0
                <= i64::MAX {
                Some(Vertex { x: xv->0 as i64, y: yv->0 as i64 })
            } else {
                None
            }
        },
    }
}

/// The vertices a piece list denotes, in order; a piece without a vertex
/// contributes nothing.
pub open spec fn spec_parsed_vertices(ts: Seq<Seq<char>>) -> Seq<Vertex>
    decreases ts.len(),
{
    if ts.len() == 0 {
        Seq::empty()
    } else {
        let rest = spec_parsed_vertices(ts.subrange(1, ts.len() as int));
        match spec_parse_vertex(ts[0]) {
            Some(v) => seq![v] + rest,
            None => rest,
        }
    }
}

/// Parse one `x,y` pair: exactly [`spec_parse_vertex`].
fn parse_vertex_pair(t: &str) -> (r: Option<Vertex>)
    ensures
        r == spec_parse_vertex(t@),
        forall|v: Vertex|
            t@ == vertex_str(v) && v.x > i64::MIN && v.y > i64::MIN ==> r == Some(v),
{
    let n = t.unicode_len();
    let mut pos: Option<usize> = None;
    let mut j: usize = 0;
    while j < n && pos.is_none()
        invariant
            0 <= j <= n,
            n == t@.len(),
            forall|k: int| 0 <= k < j ==> t@[k] != ',',
            match pos {
                Some(d) => d == j && j < n && t@[j as int] == ',',
                None => true,
            },
        decreases n - j, (if pos is Some { 0int } else { 1int }),
    {
        if t.get_char(j) == ',' {
            pos = Some(j);
        } else {
            j = j + 1;
        }
    }
    match pos {
        None => {
            proof {
                lemma_char_pos_none(t@, ',');
                assert forall|v: Vertex| t@ != vertex_str(v) by {
                    lemma_scaled_str_chars(v.x as int, 3);
                    if t@ == vertex_str(v) {
                        assert(t@[scaled_str(v.x as int, 3).len() as int] == ',');
                    }
                }
            }
            None
        },
        Some(j) => {
            proof {
                lemma_char_pos_of_first(t@, ',', j as int);
            }
            let xs = t.substring_char(0, j);
            let ys = t.substring_char(j + 1, n);
            proof {
                assert(xs@ =~= t@.take(j as int));
                assert(ys@ =~= t@.subrange(j + 1, n as int));
            }
            match (parse_scaled(xs, 3), parse_scaled(ys, 3)) {
                (Some(x), Some(y)) => {
                    proof {
                        assert forall|v: Vertex|
                            t@ == vertex_str(v) && v.x > i64::MIN && v.y > i64::MIN implies Some(
                            Vertex { x, y },
                        ) == Some(v) by {
                            lemma_vertex_str_splits(v, t@, j as int);
                            lemma_scaled_str_val(v.x as int, 3);
                            lemma_scaled_str_val(v.y as int, 3);
                        }
                    }
                    Some(Vertex { x, y })
                },
                _ => {
                    proof {
                        assert forall|v: Vertex|
                            !(t@ == vertex_str(v) && v.x > i64::MIN && v.y > i64::MIN) by {
                            if t@ == vertex_str(v) && v.x > i64::MIN && v.y > i64::MIN {
                                lemma_vertex_str_splits(v, t@, j as int);
                                lemma_scaled_str_val(v.x as int, 3);
                                lemma_scaled_str_val(v.y as int, 3);
                            }
                        }
                    }
                    None
                },
            }
        },
    }
}

/// In a vertex encoding, the first comma separates exactly the two
/// coordinate renderings.
proof fn lemma_vertex_str_splits(v: Vertex, t: Seq<char>, j: int)
    requires
        t == vertex_str(v),
        0 <= j < t.len(),
        t[j] == ',',
        forall|k: int| 0 <= k < j ==> t[k] != ',',
    ensures
        j == scaled_str(v.x as int, 3).len(),
        t.take(j) =~= scaled_str(v.x as int, 3),
        t.subrange(j + 1, t.len() as int) =~= scaled_str(v.y as int, 3),
{
    let xs = scaled_str(v.x as int, 3);
    let ys = scaled_str(v.y as int, 3);
    lemma_scaled_str_chars(v.x as int, 3);
    assert(',' as int == 44);
    assert('-' as int == 45);
    assert('.' as int == 46);
    assert(t[xs.len() as int] == ',');
    assert forall|k: int| 0 <= k < xs.len() implies t[k] != ',' by {
        assert(t[k] == xs[k]);
    }
    if j < xs.len() {
        assert(t[j] != ',');
    }
    if j > xs.len() {
        assert(t[xs.len() as int] == ',');
    }
    assert(j == xs.len());
}

/// Parse a vertex-list string: semicolon-separated `x,y` pairs; empty or
/// malformed pieces are dropped.  The encodings produced by
/// [`fmt_vertices`] parse back to exactly the list they were made from.
pub fn parse_vertices(s: &str) -> (r: Vec<Vertex>)
    ensures
        r@ =~= spec_parsed_vertices(split_spec(s@, ';')),
        forall|vs: Seq<Vertex>|
            s@ == vertices_str(vs) && (forall|k: int|
                0 <= k < vs.len() ==> (#[trigger] vs[k]).x > i64::MIN && vs[k].y > i64::MIN)
                ==> r@ =~= vs,
{
    let n = s.unicode_len();
    let mut out: Vec<Vertex> = Vec::new();
    if n == 0 {
        proof {
            lemma_char_pos_none(s@, ';');
            assert(split_spec(s@, ';') =~= seq![s@]);
            lemma_char_pos_none(s@, ',');
            assert(spec_parse_vertex(s@) is None);
            assert(seq![s@].subrange(1, 1) =~= Seq::<Seq<char>>::empty());
            assert(spec_parsed_vertices(Seq::<Seq<char>>::empty()) =~= Seq::<Vertex>::empty());
            assert(spec_parsed_vertices(split_spec(s@, ';')) =~= Seq::<Vertex>::empty());
            assert forall|vs: Seq<Vertex>| s@ == vertices_str(vs) implies vs.len() == 0 by {
                if vs.len() > 0 {
                    lemma_vertices_str_len(vs);
                }
            }
        }
        return out;
    }
    let tokens = split_char(s, ';');
    let mut i: usize = 0;
    let ghost toks = tokens@.map_values(|t: String| t@);
    let ghost full = spec_parsed_vertices(toks);
    proof {
        assert(toks.subrange(0, toks.len() as int) =~= toks);
    }
    while i < tokens.len()
        invariant
            0 <= i <= tokens@.len(),
            toks == tokens@.map_values(|t: String| t@),
            toks.len() == tokens@.len(),
            full == spec_parsed_vertices(toks),
            full =~= out@ + spec_parsed_vertices(toks.subrange(i as int, toks.len() as int)),
            forall|vs: Seq<Vertex>|
                #![trigger vertex_strs(vs)]
                toks =~= vertex_strs(vs) && (forall|k: int|
                    0 <= k < vs.len() ==> (#[trigger] vs[k]).x > i64::MIN && vs[k].y > i64::MIN)
                    ==> out@ =~= vs.take(i as int),
        decreases tokens@.len() - i,
    {
        let t = &tokens[i];
        let ghost prev = out@;
        proof {
            let suffix = toks.subrange(i as int, toks.len() as int);
            assert(suffix[0] == toks[i as int]);
            assert(suffix.subrange(1, suffix.len() as int) =~= toks.subrange(
                i + 1,
                toks.len() as int,
            ));
            assert(t@ == toks[i as int]);
        }
        match parse_vertex_pair(t.as_str()) {
            Some(v) => {
                out.push(v);
            },
            None => {},
        }
        proof {
            assert(full =~= out@ + spec_parsed_vertices(
                toks.subrange(i + 1, toks.len() as int),
            ));
            assert forall|vs: Seq<Vertex>|
                #![trigger vertex_strs(vs)]
                toks =~= vertex_strs(vs) && (forall|k: int|
                    0 <= k < vs.len() ==> (#[trigger] vs[k]).x > i64::MIN && vs[k].y > i64::MIN)
                    implies out@ =~= vs.take(i + 1) by {
                assert(vertex_strs(vs)[i as int] == vertex_str(vs[i as int]));
                assert(toks[i as int] == vertex_str(vs[i as int]));
                assert(t@ == vertex_str(vs[i as int]));
                assert(prev =~= vs.take(i as int));
                assert(vs.take(i + 1) =~= vs.take(i as int).push(vs[i as int]));
            }
        }
        i = i + 1;
    }
    proof {
        assert(toks.subrange(toks.len() as int, toks.len() as int) =~= Seq::<Seq<char>>::empty());
        assert(out@ =~= spec_parsed_vertices(split_spec(s@, ';')));
        assert forall|vs: Seq<Vertex>|
            s@ == vertices_str(vs) && (forall|k: int|
                0 <= k < vs.len() ==> (#[trigger] vs[k]).x > i64::MIN && vs[k].y > i64::MIN)
                implies out@ =~= vs by {
            if vs.len() == 0 {
                assert(s@.len() == 0);
            } else {
                let mapped = vertex_strs(vs);
                assert forall|k: int, c: int|
                    0 <= k < mapped.len() && 0 <= c < mapped[k].len() implies #[trigger] mapped[k][c]
                    != ';' by {
                    assert(mapped[k] == vertex_str(vs[k]));
                    lemma_scaled_str_chars(vs[k].x as int, 3);
                    lemma_scaled_str_chars(vs[k].y as int, 3);
                    assert(';' as int == 59);
                    let xs = scaled_str(vs[k].x as int, 3);
                    let ys = scaled_str(vs[k].y as int, 3);
                    if c < xs.len() {
                        assert(mapped[k][c] == xs[c]);
                    } else if c == xs.len() {
                        assert(mapped[k][c] == ',');
                        assert(',' as int == 44);
                    } else {
                        assert(mapped[k][c] == ys[c - xs.len() - 1]);
                    }
                }
                lemma_split_join(mapped, ';');
                assert(toks =~= mapped);
                assert(vs.take(vs.len() as int) =~= vs);
            }
        }
    }
    out
}

/// A non-empty vertex list has a non-empty encoding.
proof fn lemma_vertices_str_len(vs: Seq<Vertex>)
    requires
        vs.len() > 0,
    ensures
        vertices_str(vs).len() > 0,
    decreases vs.len(),
{
    let mapped = vs.map_values(|v: Vertex| vertex_str(v));
    if vs.len() == 1 {
        assert(vertices_str(vs) == mapped[0]);
        assert(mapped[0] == vertex_str(vs[0]));
    } else {
        assert(vertices_str(vs) == mapped[0] + seq![';'] + join_spec(
            mapped.subrange(1, mapped.len() as int),
            ';',
        ));
    }
}

/// The coordinate pair of one vertex inside a path command.
pub open spec fn path_coord_str(v: Vertex) -> Seq<char> {
    scaled_str(v.x as int, 3) + seq![' '] + scaled_str(v.y as int, 3)
}

/// The line-to steps for every vertex of `vs`, in order.
pub open spec fn path_steps(vs: Seq<Vertex>) -> Seq<char>
    decreases vs.len(),
{
    if vs.len() == 0 {
        Seq::empty()
    } else {
        path_steps(vs.drop_last()) + seq![' ', 'L', ' '] + path_coord_str(vs.last())
    }
}

/// The outline path of a vertex list: a move to the first vertex, a line to
/// each further vertex, and — once the outline is finished — a closing
/// command.  While vertices are still being collected the path stays open.
pub open spec fn path_str(vs: Seq<Vertex>, closed: bool) -> Seq<char> {
    if vs.len() == 0 {
        Seq::empty()
    } else {
        seq!['M', ' '] + path_coord_str(vs[0]) + path_steps(vs.subrange(1, vs.len() as int)) + (
        if closed {
            seq![' ', 'Z']
        } else {
            Seq::empty()
        })
    }
}

/// Render the outline path commands of a vertex list.
pub fn generate_path_commands(vs: &Vec<Vertex>, closed: bool) -> (s: String)
    ensures
        s@ == path_str(vs@, closed),
{
    let mut s = String::new();
    proof {
        reveal_strlit("M ");
        reveal_strlit(" L ");
        reveal_strlit(" ");
        reveal_strlit(" Z");
    }
    if vs.len() == 0 {
        return s;
    }
    s.append("M ");
    let x0 = fmt_scaled(vs[0].x, 3);
    s.append(x0.as_str());
    s.append(" ");
    let y0 = fmt_scaled(vs[0].y, 3);
    s.append(y0.as_str());
    proof {
        assert("M "@ =~= seq!['M', ' ']);
        assert(" "@ =~= seq![' ']);
        assert(s@ =~= seq!['M', ' '] + path_coord_str(vs@[0]));
        assert(vs@.subrange(1, 1) =~= Seq::<Vertex>::empty());
    }
    let mut i: usize = 1;
    while i < vs.len()
        invariant
            1 <= i <= vs@.len(),
            s@ == seq!['M', ' '] + path_coord_str(vs@[0]) + path_steps(vs@.subrange(1, i as int)),
        decreases vs@.len() - i,
    {
        let v = vs[i];
        s.append(" L ");
        let xs = fmt_scaled(v.x, 3);
        s.append(xs.as_str());
        s.append(" ");
        let ys = fmt_scaled(v.y, 3);
        s.append(ys.as_str());
        proof {
            reveal_strlit(" L ");
            reveal_strlit(" ");
            assert(" L "@ =~= seq![' ', 'L', ' ']);
            assert(" "@ =~= seq![' ']);
            let sub = vs@.subrange(1, i + 1);
            assert(sub.drop_last() =~= vs@.subrange(1, i as int));
            assert(sub.last() == vs@[i as int]);
            assert(s@ =~= seq!['M', ' '] + path_coord_str(vs@[0]) + path_steps(sub));
        }
        i = i + 1;
    }
    if closed {
        s.append(" Z");
        proof {
            assert(" Z"@ =~= seq![' ', 'Z']);
        }
    }
    proof {
        assert(vs@.subrange(1, vs@.len() as int) =~= vs@.subrange(1, vs@.len() as int));
        assert(s@ =~= path_str(vs@, closed));
    }
    s
}

} // verus!
