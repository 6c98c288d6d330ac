//! The nginx virtual-host file format.
//!
//! A vhost file holds a `server { ... }` block with `key value;` directives
//! and `location <paths> { ... }` sub-blocks, each carrying a mandatory
//! `proxy_pass <target>;` line and further directives. Parsing folds the
//! file's lines through a small state machine (inside/outside the server
//! block, inside/outside a location block) and fails exactly on a malformed
//! `proxy_pass` line, a location line without a separator, or a `listen`
//! value that is not a port number.

use vstd::prelude::*;

use crate::deployment::systemd::spec_pairs_view;
use crate::error::PiteriaError;
use crate::text::{
    chars_of, chars_to_string, eq_chars, parse_u64, push_str_chars, spec_digits_val, spec_find,
    spec_is_u64_numeral, spec_lines, spec_split, spec_split_once, spec_take_until, spec_trim,
    split_all, split_lines, split_once, starts_with, trim, u64_to_dec_chars,
};
use vstd::slice::{slice_subrange, slice_to_vec};

verus! {

// ---------------------------------------------------------------------------
// types and views
// ---------------------------------------------------------------------------

/// One `location` block of a vhost file.
#[derive(Debug)]
pub struct NginxLocation {
    /// The paths forwarded to `proxy_pass`.
    pub paths: Vec<String>,
    /// The directives inside the block, besides `proxy_pass`.
    pub directives: Vec<(String, String)>,
    /// The address requests are forwarded to.
    pub proxy_pass: String,
}

/// The mathematical content of an `NginxLocation`.
#[verifier::ext_equal]
pub ghost struct NginxLocationView {
    pub paths: Seq<Seq<char>>,
    pub directives: Seq<(Seq<char>, Seq<char>)>,
    pub proxy_pass: Seq<char>,
}

impl View for NginxLocation {
    type V = NginxLocationView;

    open spec fn view(&self) -> NginxLocationView {
        NginxLocationView {
            paths: self.paths@.map_values(|p: String| p@),
            directives: spec_pairs_view(self.directives@),
            proxy_pass: self.proxy_pass@,
        }
    }
}

/// A whole vhost file, and where it lives on disk.
#[derive(Debug)]
pub struct NginxConfig {
    /// Absolute path to the nginx config file.
    pub file_location: String,
    /// The `listen` directive's port.
    pub listen: usize,
    /// The public-facing domain.
    pub server_name: String,
    /// Location of the access log, when one is declared.
    pub access_log: Option<String>,
    /// The `location` blocks, in order of appearance.
    pub location: Vec<NginxLocation>,
}

/// The mathematical content of an `NginxConfig`.
#[verifier::ext_equal]
pub ghost struct NginxConfigView {
    pub file_location: Seq<char>,
    pub listen: int,
    pub server_name: Seq<char>,
    pub access_log: Option<Seq<char>>,
    pub location: Seq<NginxLocationView>,
}

impl View for NginxConfig {
    type V = NginxConfigView;

    open spec fn view(&self) -> NginxConfigView {
        NginxConfigView {
            file_location: self.file_location@,
            listen: self.listen as int,
            server_name: self.server_name@,
            access_log: match self.access_log {
                Some(l) => Some(l@),
                None => None,
            },
            location: self.location@.map_values(|l: NginxLocation| l@),
        }
    }
}

/// A location block with nothing in it yet.
pub open spec fn spec_loc_empty() -> NginxLocationView {
    NginxLocationView { paths: Seq::empty(), directives: Seq::empty(), proxy_pass: Seq::empty() }
}

/// The default configuration: port 80, no name, no log, no locations.
pub open spec fn spec_nginx_default() -> NginxConfigView {
    NginxConfigView {
        file_location: "dump/hello.vhost"@,
        listen: 80,
        server_name: Seq::empty(),
        access_log: None,
        location: Seq::empty(),
    }
}

impl Default for NginxLocation {
    fn default() -> (r: Self)
        ensures
            r@ == spec_loc_empty(),
    {
        let r = NginxLocation {
            paths: Vec::new(),
            directives: Vec::new(),
            proxy_pass: String::new(),
        };
        proof {
            assert(r@.paths =~= spec_loc_empty().paths);
            assert(r@.directives =~= spec_loc_empty().directives);
        }
        r
    }
}

impl Default for NginxConfig {
    fn default() -> (r: Self)
        ensures
            r@ == spec_nginx_default(),
    {
        let r = NginxConfig {
            file_location: "dump/hello.vhost".to_owned(),
            listen: 80,
            server_name: String::new(),
            access_log: None,
            location: Vec::new(),
        };
        proof {
            assert(r@.location =~= spec_nginx_default().location);
        }
        r
    }
}

// ---------------------------------------------------------------------------
// parsing
// ---------------------------------------------------------------------------

/// The parser's whole state.
#[verifier::ext_equal]
pub ghost struct NginxParse {
    pub cfg: NginxConfigView,
    pub loc: NginxLocationView,
    pub in_server: bool,
    pub in_location: bool,
}

/// The state parsing starts from.
pub open spec fn spec_nginx_init() -> NginxParse {
    NginxParse {
        cfg: spec_nginx_default(),
        loc: spec_loc_empty(),
        in_server: false,
        in_location: false,
    }
}

/// One line's effect on the parser, or the error message it raises.
pub open spec fn spec_nginx_step(st: NginxParse, line: Seq<char>) -> Result<NginxParse, Seq<char>> {
    let t = spec_trim(line);
    if t.len() == 0 {
        Ok(st)
    } else if "server"@.is_prefix_of(t) && t.last() == '{' {
        Ok(NginxParse { in_server: true, ..st })
    } else if st.in_location && t == "}"@ {
        Ok(
            NginxParse {
                cfg: NginxConfigView { location: st.cfg.location.push(st.loc), ..st.cfg },
                loc: spec_loc_empty(),
                in_location: false,
                ..st
            },
        )
    } else if st.in_server && t == "}"@ {
        Ok(NginxParse { in_server: false, ..st })
    } else if st.in_location {
        if "proxy_pass "@.is_prefix_of(t) {
            let rest = t.subrange("proxy_pass "@.len() as int, t.len() as int);
            let k = spec_find(rest, ';');
            if 0 < k && k < rest.len() {
                Ok(
                    NginxParse {
                        loc: NginxLocationView { proxy_pass: rest.subrange(0, k), ..st.loc },
                        ..st
                    },
                )
            } else {
                Err("Invalid proxy_pass at: "@ + t)
            }
        } else {
            match spec_split_once(t, ' ') {
                None => Err("Invalid location directive at: "@ + t),
                Some((k, v)) => Ok(
                    NginxParse {
                        loc: NginxLocationView {
                            directives: st.loc.directives.push((k, v)),
                            ..st.loc
                        },
                        ..st
                    },
                ),
            }
        }
    } else if st.in_server {
        if "location"@.is_prefix_of(t) {
            let pieces = spec_split(t, ' ');
            Ok(
                NginxParse {
                    loc: NginxLocationView {
                        paths: st.loc.paths + spec_take_until(pieces.drop_first(), "{"@),
                        ..st.loc
                    },
                    in_location: true,
                    ..st
                },
            )
        } else if t.last() == ';' {
            match spec_split_once(t, ' ') {
                None => Ok(st),
                Some((key, v)) => {
                    if v.len() == 0 {
                        Ok(st)
                    } else {
                        let v2 = v.drop_last();
                        if key == "listen"@ {
                            if spec_is_u64_numeral(v2) && spec_digits_val(v2) <= usize::MAX {
                                Ok(
                                    NginxParse {
                                        cfg: NginxConfigView {
                                            listen: spec_digits_val(v2),
                                            ..st.cfg
                                        },
                                        ..st
                                    },
                                )
                            } else {
                                Err("Invalid `listen` port value: "@ + v2)
                            }
                        } else if key == "access_log"@ {
                            Ok(
                                NginxParse {
                                    cfg: NginxConfigView { access_log: Some(v2), ..st.cfg },
                                    ..st
                                },
                            )
                        } else if key == "server_name"@ {
                            Ok(
                                NginxParse {
                                    cfg: NginxConfigView { server_name: v2, ..st.cfg },
                                    ..st
                                },
                            )
                        } else {
                            Ok(st)
                        }
                    }
                },
            }
        } else {
            Ok(st)
        }
    } else {
        Ok(st)
    }
}

/// The parser state after all of `lines`, or the first error raised.
pub open spec fn spec_nginx_fold(st: NginxParse, lines: Seq<Seq<char>>) -> Result<
    NginxParse,
    Seq<char>,
>
    decreases lines.len(),
{
    if lines.len() == 0 {
        Ok(st)
    } else {
        match spec_nginx_step(st, lines[0]) {
            Ok(st2) => spec_nginx_fold(st2, lines.drop_first()),
            Err(e) => Err(e),
        }
    }
}

proof fn lemma_nginx_fold_snoc(st: NginxParse, lines: Seq<Seq<char>>, x: Seq<char>)
    ensures
        spec_nginx_fold(st, lines.push(x)) == (match spec_nginx_fold(st, lines) {
            Ok(m) => spec_nginx_step(m, x),
            Err(e) => Err(e),
        }),
    decreases lines.len(),
{
    let p = lines.push(x);
    if lines.len() == 0 {
        assert(p[0] == x);
        assert(p.drop_first() =~= Seq::<Seq<char>>::empty());
        match spec_nginx_step(st, x) {
            Ok(st2) => {
                assert(spec_nginx_fold(st, p) == spec_nginx_fold(st2, p.drop_first()));
                assert(spec_nginx_fold(st2, p.drop_first()) == Ok::<NginxParse, Seq<char>>(st2));
            },
            Err(e) => {
                assert(spec_nginx_fold(st, p) == Err::<NginxParse, Seq<char>>(e));
            },
        }
        assert(spec_nginx_fold(st, lines) == Ok::<NginxParse, Seq<char>>(st));
    } else {
        assert(p[0] == lines[0]);
        assert(p.drop_first() =~= lines.drop_first().push(x));
        match spec_nginx_step(st, lines[0]) {
            Ok(st2) => {
                assert(spec_nginx_fold(st, p) == spec_nginx_fold(st2, lines.drop_first().push(x)));
                lemma_nginx_fold_snoc(st2, lines.drop_first(), x);
                assert(spec_nginx_fold(st, lines) == spec_nginx_fold(st2, lines.drop_first()));
            },
            Err(e) => {
                assert(spec_nginx_fold(st, p) == Err::<NginxParse, Seq<char>>(e));
                assert(spec_nginx_fold(st, lines) == Err::<NginxParse, Seq<char>>(e));
            },
        }
    }
}

/// Once the fold fails, later lines change nothing.
proof fn lemma_nginx_fold_err_stable(st: NginxParse, a: Seq<Seq<char>>, b: Seq<Seq<char>>, e: Seq<
    char,
>)
    requires
        spec_nginx_fold(st, a) == Err::<NginxParse, Seq<char>>(e),
        a.is_prefix_of(b),
    ensures
        spec_nginx_fold(st, b) == Err::<NginxParse, Seq<char>>(e),
    decreases a.len(),
{
    if a.len() == 0 {
    } else {
        assert(b.len() > 0 && b[0] == a[0]);
        match spec_nginx_step(st, a[0]) {
            Ok(st2) => {
                assert(a.drop_first().is_prefix_of(b.drop_first()));
                lemma_nginx_fold_err_stable(st2, a.drop_first(), b.drop_first(), e);
            },
            Err(e2) => {
                assert(e2 == e);
            },
        }
    }
}

/// The configuration a vhost file's text denotes, or the error message its
/// first malformed line raises.
pub open spec fn spec_parse_nginx(s: Seq<char>) -> Result<NginxConfigView, Seq<char>> {
    match spec_nginx_fold(spec_nginx_init(), spec_lines(s)) {
        Ok(st) => Ok(st.cfg),
        Err(e) => Err(e),
    }
}

proof fn lemma_take_until_at(xs: Seq<Seq<char>>, stop: Seq<char>, j: int)
    requires
        0 <= j <= xs.len(),
        forall|m: int| 0 <= m < j ==> xs[m] != stop,
        j < xs.len() ==> xs[j] == stop,
    ensures
        spec_take_until(xs, stop) == xs.subrange(0, j),
    decreases xs.len(),
{
    if xs.len() == 0 || xs[0] == stop {
        assert(spec_take_until(xs, stop) =~= xs.subrange(0, j));
    } else {
        assert(forall|m: int| 0 <= m < j - 1 ==> xs.drop_first()[m] != stop);
        lemma_take_until_at(xs.drop_first(), stop, j - 1);
        assert(spec_take_until(xs, stop) =~= xs.subrange(0, j));
    }
}

impl NginxConfig {
    /// Parse a vhost file, line by line; the error carries the message of
    /// the first malformed line.
    pub fn parse(input: &str) -> (r: Result<NginxConfig, PiteriaError>)
        ensures
            match r {
                Ok(cfg) => spec_parse_nginx(input@) == Ok::<NginxConfigView, Seq<char>>(cfg@),
                Err(e) => match e {
                    PiteriaError::NginxParse(m) => spec_parse_nginx(input@)
                        == Err::<NginxConfigView, Seq<char>>(m@),
                    _ => false,
                },
            },
    {
        let cs = chars_of(input);
        let lines = split_lines(cs.as_slice());
        let ghost lview = lines@.map_values(|l: Vec<char>| l@);
        let mut cfg = NginxConfig::default();
        let mut loc = NginxLocation::default();
        let mut in_server = false;
        let mut in_location = false;
        let brace_open = chars_of("{");
        let kw_server = chars_of("server");
        let kw_proxy_pass = chars_of("proxy_pass ");
        let kw_location = chars_of("location");
        let kw_listen = chars_of("listen");
        let kw_access_log = chars_of("access_log");
        let kw_server_name = chars_of("server_name");
        let mut i: usize = 0;
        while i < lines.len()
            invariant
                lview == lines@.map_values(|l: Vec<char>| l@),
                lview == spec_lines(input@),
                i <= lines@.len(),
                brace_open@ == "{"@,
                kw_server@ == "server"@,
                kw_proxy_pass@ == "proxy_pass "@,
                kw_location@ == "location"@,
                kw_listen@ == "listen"@,
                kw_access_log@ == "access_log"@,
                kw_server_name@ == "server_name"@,
                spec_nginx_fold(spec_nginx_init(), lview.subrange(0, i as int)) == Ok::<
                    NginxParse,
                    Seq<char>,
                >(NginxParse { cfg: cfg@, loc: loc@, in_server, in_location }),
            decreases lines@.len() - i,
        {
            let ghost st = NginxParse { cfg: cfg@, loc: loc@, in_server, in_location };
            proof {
                assert(lview[i as int] == lines@[i as int]@);
            }
            let line = trim(lines[i].as_slice());
            let ghost t = line@;
            proof {
                assert(t == spec_trim(lview[i as int]));
            }
            let mut err: Option<String> = None;
            if line.len() == 0 {
                // blank line: nothing changes
                proof {
                    assert(spec_nginx_step(st, lview[i as int]) =~~= Ok::<NginxParse, Seq<char>>(
                        st,
                    ));
                }
            } else if starts_with(line, kw_server.as_slice()) && line[line.len() - 1] == '{' {
                in_server = true;
                proof {
                    assert(spec_nginx_step(st, lview[i as int]) =~~= Ok::<NginxParse, Seq<char>>(
                        NginxParse { in_server: true, ..st },
                    ));
                }
            } else if in_location && line.len() == 1 && line[0] == '}' {
                let full = loc;
                loc = NginxLocation::default();
                cfg.location.push(full);
                in_location = false;
                proof {
                    assert(t =~= "}"@) by {
                        reveal_strlit("}");
                    }
                    assert(cfg@.location =~= st.cfg.location.push(st.loc));
                    assert(spec_nginx_step(st, lview[i as int]) =~~= Ok::<NginxParse, Seq<char>>(
                        NginxParse {
                            cfg: NginxConfigView { location: st.cfg.location.push(st.loc), ..st.cfg },
                            loc: spec_loc_empty(),
                            in_location: false,
                            ..st
                        },
                    ));
                }
            } else if in_server && line.len() == 1 && line[0] == '}' {
                in_server = false;
                proof {
                    assert(t =~= "}"@) by {
                        reveal_strlit("}");
                    }
                    assert(spec_nginx_step(st, lview[i as int]) =~~= Ok::<NginxParse, Seq<char>>(
                        NginxParse { in_server: false, ..st },
                    ));
                }
            } else if in_location {
                proof {
                    assert(t != "}"@) by {
                        reveal_strlit("}");
                    }
                }
                if starts_with(line, kw_proxy_pass.as_slice()) {
                    let rest = slice_subrange(line, kw_proxy_pass.len(), line.len());
                    proof {
                        assert(rest@ =~= t.subrange("proxy_pass "@.len() as int, t.len() as int));
                    }
                    match split_once(rest, ';') {
                        Some((a, _)) if a.len() > 0 => {
                            loc.proxy_pass = chars_to_string(&a);
                            proof {
                                crate::text::lemma_find_bounds(rest@, ';');
                                assert(a@ == rest@.subrange(0, spec_find(rest@, ';')));
                                assert(a@.len() == spec_find(rest@, ';'));
                                assert(0 < spec_find(rest@, ';') < rest@.len());
                                assert(spec_nginx_step(st, lview[i as int]) =~~= Ok::<
                                    NginxParse,
                                    Seq<char>,
                                >(
                                    NginxParse {
                                        loc: NginxLocationView { proxy_pass: a@, ..st.loc },
                                        ..st
                                    },
                                ));
                            }
                        },
                        _ => {
                            let mut msg = chars_of("Invalid proxy_pass at: ");
                            crate::text::push_chars(&mut msg, line);
                            err = Some(chars_to_string(&msg));
                        },
                    }
                } else {
                    match split_once(line, ' ') {
                        Some((k, v)) => {
                            loc.directives.push((chars_to_string(&k), chars_to_string(&v)));
                            proof {
                                assert(loc@.directives =~= st.loc.directives.push((k@, v@)));
                                assert(spec_nginx_step(st, lview[i as int]) =~~= Ok::<
                                    NginxParse,
                                    Seq<char>,
                                >(
                                    NginxParse {
                                        loc: NginxLocationView {
                                            directives: st.loc.directives.push((k@, v@)),
                                            ..st.loc
                                        },
                                        ..st
                                    },
                                ));
                            }
                        },
                        None => {
                            let mut msg = chars_of("Invalid location directive at: ");
                            crate::text::push_chars(&mut msg, line);
                            err = Some(chars_to_string(&msg));
                        },
                    }
                }
            } else if in_server {
                proof {
                    assert(t != "}"@) by {
                        reveal_strlit("}");
                    }
                }
                if starts_with(line, kw_location.as_slice()) {
                    let pieces = split_all(line, ' ');
                    let ghost pv = spec_split(t, ' ').drop_first();
                    proof {
                        assert(st.loc.paths + pv.subrange(0, 0) =~= st.loc.paths);
                    }
                    let mut j: usize = 1;
                    while j < pieces.len() && !eq_chars(pieces[j].as_slice(), brace_open.as_slice())
                        invariant
                            1 <= j <= pieces@.len(),
                            brace_open@ == "{"@,
                            pieces@.map_values(|l: Vec<char>| l@) == spec_split(t, ' '),
                            pv == spec_split(t, ' ').drop_first(),
                            loc@.paths == st.loc.paths + pv.subrange(0, j - 1),
                            loc@.directives == st.loc.directives,
                            loc@.proxy_pass == st.loc.proxy_pass,
                            forall|m: int| 0 <= m < j - 1 ==> pv[m] != "{"@,
                        decreases pieces@.len() - j,
                    {
                        let s = chars_to_string(&pieces[j]);
                        proof {
                            assert(pieces@.map_values(|l: Vec<char>| l@)[j as int]
                                == pieces@[j as int]@);
                            assert(pv[j - 1] == spec_split(t, ' ')[j as int]);
                            assert(s@ == pv[j - 1]);
                        }
                        let ghost oldpaths = loc@.paths;
                        loc.paths.push(s);
                        proof {
                            assert(loc@.paths =~= oldpaths.push(s@));
                        }
                        j += 1;
                        proof {
                            assert(pv.subrange(0, j - 1) =~= pv.subrange(0, j - 2).push(pv[j - 2]));
                            assert((st.loc.paths + pv.subrange(0, j - 2)).push(pv[j - 2])
                                =~= st.loc.paths + pv.subrange(0, j - 1));
                            assert(loc@.paths == st.loc.paths + pv.subrange(0, j - 1));
                        }
                    }
                    in_location = true;
                    proof {
                        if j < pieces.len() {
                            assert(pieces@.map_values(|l: Vec<char>| l@)[j as int]
                                == pieces@[j as int]@);
                            assert(pv[j - 1] == spec_split(t, ' ')[j as int]);
                        }
                        assert(pv.len() == pieces@.len() - 1);
                        lemma_take_until_at(pv, "{"@, j - 1);
                        assert(loc@.paths =~= st.loc.paths + spec_take_until(pv, "{"@));
                        assert(spec_nginx_step(st, lview[i as int]) =~~= Ok::<NginxParse, Seq<
                            char,
                        >>(
                            NginxParse {
                                loc: NginxLocationView {
                                    paths: st.loc.paths + spec_take_until(pv, "{"@),
                                    ..st.loc
                                },
                                in_location: true,
                                ..st
                            },
                        ));
                    }
                } else if line[line.len() - 1] == ';' {
                    match split_once(line, ' ') {
                        None => {},
                        Some((key, value)) => {
                            if value.len() == 0 {
                                // a directive with an empty value is skipped
                            } else {
                                let v2 = slice_to_vec(
                                    slice_subrange(value.as_slice(), 0, value.len() - 1),
                                );
                                proof {
                                    assert(v2@ =~= value@.drop_last());
                                }
                                if eq_chars(key.as_slice(), kw_listen.as_slice()) {
                                    let mut ok = false;
                                    match parse_u64(v2.as_slice()) {
                                        Some(x) => {
                                            if x <= usize::MAX as u64 {
                                                cfg.listen = x as usize;
                                                ok = true;
                                            }
                                        },
                                        None => {},
                                    }
                                    if !ok {
                                        let mut msg = chars_of("Invalid `listen` port value: ");
                                        crate::text::push_chars(&mut msg, v2.as_slice());
                                        err = Some(chars_to_string(&msg));
                                    }
                                } else if eq_chars(key.as_slice(), kw_access_log.as_slice()) {
                                    cfg.access_log = Some(chars_to_string(&v2));
                                } else if eq_chars(key.as_slice(), kw_server_name.as_slice()) {
                                    cfg.server_name = chars_to_string(&v2);
                                } else {
                                    // unknown directive: skipped
                                }
                            }
                        },
                    }
                } else {
                    // a line without a closing separator is skipped
                }
            } else {
                // outside any block: skipped
            }
            match err {
                Some(msg) => {
                    proof {
                        assert(spec_nginx_step(st, lview[i as int]) =~~= Err::<NginxParse, Seq<
                            char,
                        >>(msg@));
                        assert(lview.subrange(0, i as int).push(lview[i as int]) =~= lview.subrange(
                            0,
                            i as int + 1,
                        ));
                        lemma_nginx_fold_snoc(
                            spec_nginx_init(),
                            lview.subrange(0, i as int),
                            lview[i as int],
                        );
                        assert(lview.subrange(0, i as int + 1).is_prefix_of(lview));
                        lemma_nginx_fold_err_stable(
                            spec_nginx_init(),
                            lview.subrange(0, i as int + 1),
                            lview,
                            msg@,
                        );
                    }
                    return Err(PiteriaError::NginxParse(msg));
                },
                None => {},
            }
            proof {
                assert(spec_nginx_step(st, lview[i as int]) =~~= Ok::<NginxParse, Seq<char>>(
                    NginxParse { cfg: cfg@, loc: loc@, in_server, in_location },
                ));
                assert(lview.subrange(0, i as int).push(lview[i as int]) =~= lview.subrange(
                    0,
                    i as int + 1,
                ));
                lemma_nginx_fold_snoc(
                    spec_nginx_init(),
                    lview.subrange(0, i as int),
                    lview[i as int],
                );
            }
            i += 1;
        }
        proof {
            assert(lview.subrange(0, lview.len() as int) =~= lview);
        }
        Ok(cfg)
    }
}

// ---------------------------------------------------------------------------
// rendering
// ---------------------------------------------------------------------------

/// The text of a location's path list: each path followed by a blank.
pub open spec fn spec_render_paths(paths: Seq<Seq<char>>) -> Seq<char>
    decreases paths.len(),
{
    if paths.len() == 0 {
        Seq::empty()
    } else {
        spec_render_paths(paths.drop_last()) + paths.last() + seq![' ']
    }
}

/// The text of a location's directive list: one indented `key value;` line
/// per pair.
pub open spec fn spec_render_directives(ds: Seq<(Seq<char>, Seq<char>)>) -> Seq<char>
    decreases ds.len(),
{
    if ds.len() == 0 {
        Seq::empty()
    } else {
        spec_render_directives(ds.drop_last()) + "    "@ + ds.last().0 + seq![' '] + ds.last().1
            + ";\n"@
    }
}

/// The text of one `location` block.
pub open spec fn spec_render_location(l: NginxLocationView) -> Seq<char> {
    "location "@ + spec_render_paths(l.paths) + "{\n"@ + "    proxy_pass "@ + l.proxy_pass + ";\n"@
        + spec_render_directives(l.directives) + "  }"@
}

/// The text of the location blocks inside the server block, each indented
/// and closed by a newline.
pub open spec fn spec_render_locations(ls: Seq<NginxLocationView>) -> Seq<char>
    decreases ls.len(),
{
    if ls.len() == 0 {
        Seq::empty()
    } else {
        spec_render_locations(ls.drop_last()) + "  "@ + spec_render_location(ls.last()) + seq![
            '\n',
        ]
    }
}

/// The whole vhost file: the `server` block with its `listen` and
/// `server_name` directives and its location blocks.
pub open spec fn spec_render_nginx(c: NginxConfigView) -> Seq<char> {
    "server {\n  listen "@ + crate::text::spec_dec_chars(c.listen) + ";\n"@ + "  server_name "@
        + c.server_name + ";\n"@ + spec_render_locations(c.location) + "}\n"@
}

fn render_paths_into(out: &mut Vec<char>, paths: &Vec<String>)
    ensures
        final(out)@ == old(out)@ + spec_render_paths(paths@.map_values(|p: String| p@)),
{
    let ghost pv = paths@.map_values(|p: String| p@);
    let mut i: usize = 0;
    while i < paths.len()
        invariant
            i <= paths@.len(),
            pv == paths@.map_values(|p: String| p@),
            out@ == old(out)@ + spec_render_paths(pv.subrange(0, i as int)),
        decreases paths@.len() - i,
    {
        push_str_chars(out, paths[i].as_str());
        out.push(' ');
        i += 1;
        proof {
            let pre = pv.subrange(0, i as int);
            assert(pre.drop_last() =~= pv.subrange(0, i - 1));
            assert(pre.last() == pv[i - 1]);
            assert(out@ =~= old(out)@ + spec_render_paths(pre));
        }
    }
    proof {
        assert(pv.subrange(0, pv.len() as int) =~= pv);
    }
}

fn render_directives_into(out: &mut Vec<char>, ds: &Vec<(String, String)>)
    ensures
        final(out)@ == old(out)@ + spec_render_directives(spec_pairs_view(ds@)),
{
    let ghost dv = spec_pairs_view(ds@);
    let mut i: usize = 0;
    while i < ds.len()
        invariant
            i <= ds@.len(),
            dv == spec_pairs_view(ds@),
            out@ == old(out)@ + spec_render_directives(dv.subrange(0, i as int)),
        decreases ds@.len() - i,
    {
        push_str_chars(out, "    ");
        push_str_chars(out, ds[i].0.as_str());
        out.push(' ');
        push_str_chars(out, ds[i].1.as_str());
        push_str_chars(out, ";\n");
        i += 1;
        proof {
            let pre = dv.subrange(0, i as int);
            assert(pre.drop_last() =~= dv.subrange(0, i - 1));
            assert(pre.last() == dv[i - 1]);
            assert(out@ =~= old(out)@ + spec_render_directives(pre));
        }
    }
    proof {
        assert(dv.subrange(0, dv.len() as int) =~= dv);
    }
}

fn render_location_into(out: &mut Vec<char>, l: &NginxLocation)
    ensures
        final(out)@ == old(out)@ + spec_render_location(l@),
{
    push_str_chars(out, "location ");
    render_paths_into(out, &l.paths);
    push_str_chars(out, "{\n");
    push_str_chars(out, "    proxy_pass ");
    push_str_chars(out, l.proxy_pass.as_str());
    push_str_chars(out, ";\n");
    render_directives_into(out, &l.directives);
    push_str_chars(out, "  }");
    proof {
        assert(out@ =~= old(out)@ + spec_render_location(l@));
    }
}

impl NginxConfig {
    /// The vhost file's text, ready to be written to `file_location`.
    pub fn to_text(&self) -> (s: String)
        ensures
            s@ == spec_render_nginx(self@),
    {
        let ghost lv = self.location@.map_values(|l: NginxLocation| l@);
        let mut out: Vec<char> = Vec::new();
        push_str_chars(&mut out, "server {\n  listen ");
        let mut digits = u64_to_dec_chars(self.listen as u64);
        out.append(&mut digits);
        push_str_chars(&mut out, ";\n");
        push_str_chars(&mut out, "  server_name ");
        push_str_chars(&mut out, self.server_name.as_str());
        push_str_chars(&mut out, ";\n");
        let ghost mid = out@;
        let mut i: usize = 0;
        while i < self.location.len()
            invariant
                i <= self.location@.len(),
                lv == self.location@.map_values(|l: NginxLocation| l@),
                out@ == mid + spec_render_locations(lv.subrange(0, i as int)),
            decreases self.location@.len() - i,
        {
            push_str_chars(&mut out, "  ");
            render_location_into(&mut out, &self.location[i]);
            out.push('\n');
            i += 1;
            proof {
                let pre = lv.subrange(0, i as int);
                assert(pre.drop_last() =~= lv.subrange(0, i - 1));
                assert(pre.last() == lv[i - 1]);
                assert(out@ =~= mid + spec_render_locations(pre));
            }
        }
        push_str_chars(&mut out, "}\n");
        proof {
            assert(lv.subrange(0, lv.len() as int) =~= lv);
            assert(out@ =~= spec_render_nginx(self@));
        }
        chars_to_string(&out)
    }
}

// ---------------------------------------------------------------------------
// the stock location block
// ---------------------------------------------------------------------------

/// The location block a fresh deployment starts from: the root path,
/// forwarding headers, and a local proxy target.
pub open spec fn spec_location_new() -> NginxLocationView {
    NginxLocationView {
        paths: seq!["/"@],
        directives: seq![
            ("proxy_set_header"@, "Host $host"@),
            ("proxy_set_header"@, "Upgrade $http_upgrade"@),
            ("proxy_set_header"@, "Connection \"upgrade\""@),
            ("proxy_set_header"@, "X-Real-Ip $remote_addr"@),
            ("proxy_set_header"@, "X-Forwarded-For $proxy_add_x_forwarded_for"@),
            ("proxy_set_header"@, "X-Scheme $scheme"@),
        ],
        proxy_pass: "http://localhost:42069/"@,
    }
}

impl NginxLocation {
    /// The stock location block for a fresh deployment.
    pub fn new() -> (r: Self)
        ensures
            r@ == spec_location_new(),
    {
        let mut paths: Vec<String> = Vec::new();
        paths.push("/".to_owned());
        let mut directives: Vec<(String, String)> = Vec::new();
        directives.push(("proxy_set_header".to_owned(), "Host $host".to_owned()));
        directives.push(("proxy_set_header".to_owned(), "Upgrade $http_upgrade".to_owned()));
        directives.push(("proxy_set_header".to_owned(), "Connection \"upgrade\"".to_owned()));
        directives.push(("proxy_set_header".to_owned(), "X-Real-Ip $remote_addr".to_owned()));
        directives.push(
            ("proxy_set_header".to_owned(), "X-Forwarded-For $proxy_add_x_forwarded_for".to_owned()),
        );
        directives.push(("proxy_set_header".to_owned(), "X-Scheme $scheme".to_owned()));
        let r = NginxLocation {
            paths,
            directives,
            proxy_pass: "http://localhost:42069/".to_owned(),
        };
        proof {
            assert(r@.paths =~= spec_location_new().paths);
            assert(r@.directives =~= spec_location_new().directives);
        }
        r
    }
}

} // verus!
