//! The persisted session snapshot: per-window logical geometry,
//! best-effort geometry collection, and the exact text of the
//! `session.json` file.

use vstd::prelude::*;
use crate::json::{comma_join, json_quoted, lemma_comma_join_step, push_json_quoted};
use crate::strings::{dec_digits, push_dec_u64};

verus! {

/// A window's logical (scale-adjusted) rectangle.
#[derive(Clone, Copy, PartialEq, Eq, Structural, Debug)]
pub struct WindowGeometry {
    pub x: i32,
    pub y: i32,
    pub width: u32,
    pub height: u32,
}

/// The decimal rendering of an integer, with a leading minus sign when
/// negative.
pub open spec fn int_digits(n: int) -> Seq<char> {
    if n < 0 {
        seq!['-'] + dec_digits(-n)
    } else {
        dec_digits(n)
    }
}

/// The JSON object text for one geometry value.
pub open spec fn geometry_json(g: WindowGeometry) -> Seq<char> {
    "{\"x\":"@ + int_digits(g.x as int) + ",\"y\":"@ + int_digits(g.y as int) + ",\"width\":"@
        + dec_digits(g.width as int) + ",\"height\":"@ + dec_digits(g.height as int) + "}"@
}

/// One `"path":{geometry}` member of the geometry object.
pub open spec fn geometry_member(e: (Seq<char>, WindowGeometry)) -> Seq<char> {
    json_quoted(e.0) + seq![':'] + geometry_json(e.1)
}

/// The exact text of the persisted session file for the given open
/// database paths and per-path geometry.
pub open spec fn session_json(
    paths: Seq<Seq<char>>,
    geometry: Seq<(Seq<char>, WindowGeometry)>,
) -> Seq<char> {
    "{\"openDatabases\":["@ + comma_join(paths.map_values(|p: Seq<char>| json_quoted(p)))
        + "],\"windowGeometry\":{"@ + comma_join(
        geometry.map_values(|e: (Seq<char>, WindowGeometry)| geometry_member(e)),
    ) + "}}"@
}

/// The geometry entries kept from a best-effort query pass: entry `i`
/// contributes its database path and rectangle only when the query for
/// it succeeded.
pub open spec fn kept_geometry(
    entries: Seq<(Seq<char>, Seq<char>)>,
    results: Seq<Option<WindowGeometry>>,
) -> Seq<(Seq<char>, WindowGeometry)>
    decreases entries.len(),
{
    if entries.len() == 0 || results.len() == 0 {
        Seq::empty()
    } else {
        kept_geometry(entries.drop_last(), results.drop_last()) + match results.last() {
            Some(g) => seq![(entries.last().1, g)],
            None => Seq::empty(),
        }
    }
}

/// Every geometry entry kept from a query pass carries the path of one
/// of the snapshot's own entries: geometry present in the session file
/// always belongs to a path in the open-paths list derived from the
/// same map snapshot.
pub proof fn lemma_kept_geometry_paths(
    entries: Seq<(Seq<char>, Seq<char>)>,
    results: Seq<Option<WindowGeometry>>,
    k: int,
)
    requires
        entries.len() == results.len(),
        0 <= k < kept_geometry(entries, results).len(),
    ensures
        exists|i: int|
            0 <= i < entries.len() && (#[trigger] entries[i]).1 == kept_geometry(entries, results)[
                k
            ].0,
    decreases entries.len(),
{
    if entries.len() > 0 {
        let front_e = entries.drop_last();
        let front_r = results.drop_last();
        let kf = kept_geometry(front_e, front_r);
        if k < kf.len() {
            lemma_kept_geometry_paths(front_e, front_r, k);
            let i = choose|i: int|
                0 <= i < front_e.len() && (#[trigger] front_e[i]).1 == kf[k].0;
            assert(entries[i].1 == kept_geometry(entries, results)[k].0);
        } else {
            assert(entries[entries.len() - 1].1 == kept_geometry(entries, results)[k].0);
        }
    }
}

/// The fixed name of the session snapshot file inside the
/// application's data directory.
pub fn session_file_name() -> (r: String)
    ensures
        r@ == "session.json"@,
{
    let mut out = String::new();
    out.append("session.json");
    assert(out@ =~= "session.json"@);
    out
}

/// Appends the decimal rendering of `n`, sign included.
pub fn push_i32(out: &mut String, n: i32)
    ensures
        final(out)@ == old(out)@ + int_digits(n as int),
{
    if n < 0 {
        proof {
            reveal_strlit("-");
        }
        out.append("-");
        let mag: i64 = -(n as i64);
        push_dec_u64(out, mag as u64);
        assert(out@ =~= old(out)@ + int_digits(n as int));
    } else {
        push_dec_u64(out, n as u64);
    }
}

/// Appends the JSON object text for one geometry value.
pub fn push_geometry_json(out: &mut String, g: &WindowGeometry)
    ensures
        final(out)@ == old(out)@ + geometry_json(*g),
{
    out.append("{\"x\":");
    push_i32(out, g.x);
    out.append(",\"y\":");
    push_i32(out, g.y);
    out.append(",\"width\":");
    push_dec_u64(out, g.width as u64);
    out.append(",\"height\":");
    push_dec_u64(out, g.height as u64);
    out.append("}");
    assert(out@ =~= old(out)@ + geometry_json(*g));
}

/// Folds a pass of best-effort window queries into geometry entries
/// keyed by database path: entry `i` of `entries` is kept exactly when
/// `results[i]` carries a rectangle; a failed query is simply omitted.
pub fn collect_geometry(
    entries: &Vec<(String, String)>,
    results: &Vec<Option<WindowGeometry>>,
) -> (r: Vec<(String, WindowGeometry)>)
    requires
        entries@.len() == results@.len(),
    ensures
        r@.map_values(|e: (String, WindowGeometry)| (e.0@, e.1)) == kept_geometry(
            entries@.map_values(|e: (String, String)| (e.0@, e.1@)),
            results@,
        ),
{
    let ghost gentries = entries@.map_values(|e: (String, String)| (e.0@, e.1@));
    let mut r: Vec<(String, WindowGeometry)> = Vec::new();
    let mut i: usize = 0;
    while i < entries.len()
        invariant
            i <= entries@.len(),
            entries@.len() == results@.len(),
            gentries == entries@.map_values(|e: (String, String)| (e.0@, e.1@)),
            r@.map_values(|e: (String, WindowGeometry)| (e.0@, e.1)) == kept_geometry(
                gentries.take(i as int),
                results@.take(i as int),
            ),
        decreases entries@.len() - i,
    {
        match &results[i] {
            Some(g) => {
                r.push((entries[i].1.clone(), *g));
            },
            None => {},
        }
        proof {
            assert(gentries.take(i + 1).drop_last() =~= gentries.take(i as int));
            assert(results@.take(i + 1).drop_last() =~= results@.take(i as int));
            assert(gentries.take(i + 1).last() == gentries[i as int]);
            assert(results@.take(i + 1).last() == results@[i as int]);
            assert(r@.map_values(|e: (String, WindowGeometry)| (e.0@, e.1)) =~= kept_geometry(
                gentries.take(i + 1),
                results@.take(i + 1),
            ));
        }
        i = i + 1;
    }
    proof {
        assert(gentries.take(entries@.len() as int) =~= gentries);
        assert(results@.take(entries@.len() as int) =~= results@);
    }
    r
}

/// The complete text of the session snapshot file for the given open
/// database paths and geometry entries.
pub fn session_file_contents(
    paths: &Vec<String>,
    geometry: &Vec<(String, WindowGeometry)>,
) -> (r: String)
    ensures
        r@ == session_json(
            paths@.map_values(|s: String| s@),
            geometry@.map_values(|e: (String, WindowGeometry)| (e.0@, e.1)),
        ),
{
    proof {
        reveal_strlit(",");
        reveal_strlit(":");
    }
    let ghost qpaths = paths@.map_values(|s: String| s@).map_values(
        |p: Seq<char>| json_quoted(p),
    );
    let ghost gmembers = geometry@.map_values(|e: (String, WindowGeometry)| (e.0@, e.1))
        .map_values(|e: (Seq<char>, WindowGeometry)| geometry_member(e));
    let mut out = String::new();
    out.append("{\"openDatabases\":[");
    let mut i: usize = 0;
    while i < paths.len()
        invariant
            i <= paths@.len(),
            qpaths == paths@.map_values(|s: String| s@).map_values(
                |p: Seq<char>| json_quoted(p),
            ),
            out@ == "{\"openDatabases\":["@ + comma_join(qpaths.take(i as int)),
        decreases paths@.len() - i,
    {
        if i > 0 {
            out.append(",");
        }
        push_json_quoted(&mut out, paths[i].as_str());
        proof {
            reveal_strlit(",");
            lemma_comma_join_step(qpaths, i as int);
            assert(out@ =~= "{\"openDatabases\":["@ + comma_join(qpaths.take(i + 1)));
        }
        i = i + 1;
    }
    proof {
        assert(qpaths.take(paths@.len() as int) =~= qpaths);
    }
    out.append("],\"windowGeometry\":{");
    let mut j: usize = 0;
    while j < geometry.len()
        invariant
            j <= geometry@.len(),
            qpaths == paths@.map_values(|s: String| s@).map_values(
                |p: Seq<char>| json_quoted(p),
            ),
            gmembers == geometry@.map_values(|e: (String, WindowGeometry)| (e.0@, e.1))
                .map_values(|e: (Seq<char>, WindowGeometry)| geometry_member(e)),
            out@ == "{\"openDatabases\":["@ + comma_join(qpaths) + "],\"windowGeometry\":{"@
                + comma_join(gmembers.take(j as int)),
        decreases geometry@.len() - j,
    {
        if j > 0 {
            out.append(",");
        }
        push_json_quoted(&mut out, geometry[j].0.as_str());
        out.append(":");
        push_geometry_json(&mut out, &geometry[j].1);
        proof {
            reveal_strlit(",");
            reveal_strlit(":");
            lemma_comma_join_step(gmembers, j as int);
            assert(out@ =~= "{\"openDatabases\":["@ + comma_join(qpaths)
                + "],\"windowGeometry\":{"@ + comma_join(gmembers.take(j + 1)));
        }
        j = j + 1;
    }
    proof {
        assert(gmembers.take(geometry@.len() as int) =~= gmembers);
    }
    out.append("}}");
    assert(out@ =~= session_json(
        paths@.map_values(|s: String| s@),
        geometry@.map_values(|e: (String, WindowGeometry)| (e.0@, e.1)),
    ));
    out
}

} // verus!
