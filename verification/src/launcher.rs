//! Relaunching the node's executable with an adjusted configuration: the
//! command line is assembled here, deterministically, from the caller's
//! parameter pairs; actually spawning the process is the application
//! shell's work, reached through the `Execer` port.

use vstd::prelude::*;
use itertools::Itertools;

verus! {

/// Lexicographic order on character sequences, the order `String`
/// comparison gives.
pub open spec fn lex_le(a: Seq<char>, b: Seq<char>) -> bool
    decreases a.len(),
{
    if a.len() == 0 {
        true
    } else if b.len() == 0 {
        false
    } else if a[0] != b[0] {
        (a[0] as int) < (b[0] as int)
    } else {
        lex_le(a.drop_first(), b.drop_first())
    }
}

/// The name-and-value pairs of a parameter list, as character sequences.
pub open spec fn pair_views(s: Seq<(String, String)>) -> Seq<(Seq<char>, Seq<char>)> {
    Seq::new(s.len(), |i: int| (s[i].0@, s[i].1@))
}

/// Ascending by parameter name.
pub open spec fn sorted_by_name(s: Seq<(Seq<char>, Seq<char>)>) -> bool {
    forall|i: int, j: int| 0 <= i < j < s.len() ==> lex_le(#[trigger] s[i].0, #[trigger] s[j].0)
}

/// The decimal digits of `n`.
pub open spec fn dec_str(n: nat) -> Seq<char>
    decreases n,
{
    if n < 10 {
        seq![digit_char(n)]
    } else {
        dec_str(n / 10).push(digit_char(n % 10))
    }
}

pub open spec fn digit_char(d: nat) -> char
    recommends
        d < 10,
{
    if d == 0 {
        '0'
    } else if d == 1 {
        '1'
    } else if d == 2 {
        '2'
    } else if d == 3 {
        '3'
    } else if d == 4 {
        '4'
    } else if d == 5 {
        '5'
    } else if d == 6 {
        '6'
    } else if d == 7 {
        '7'
    } else if d == 8 {
        '8'
    } else {
        '9'
    }
}

/// The parameter pairs whose name is not the redirect-port key, in order.
pub open spec fn drop_port_entries(s: Seq<(Seq<char>, Seq<char>)>) -> Seq<(Seq<char>, Seq<char>)>
    decreases s.len(),
{
    if s.len() == 0 {
        Seq::empty()
    } else {
        let rest = drop_port_entries(s.drop_last());
        if s.last().0 != "ui-port"@ {
            rest.push(s.last())
        } else {
            rest
        }
    }
}

/// The parameter pairs with any caller-supplied redirect-port entry
/// removed and this launch's own redirect port appended.
pub open spec fn with_redirect_port(s: Seq<(Seq<char>, Seq<char>)>, port: u16) -> Seq<
    (Seq<char>, Seq<char>),
> {
    drop_port_entries(s).push(("ui-port"@, dec_str(port as nat)))
}

/// Relies on itertools' `sorted_by_key`: a stable sort of the pairs by
/// their name, under `String`'s lexicographic order.  The result holds the
/// same pairs, ascending by name.
#[verifier::external_body]
fn sort_pairs_by_name(pairs: Vec<(String, String)>) -> (r: Vec<(String, String)>)
    ensures
        r@.len() == pairs@.len(),
        pair_views(r@).to_multiset() == pair_views(pairs@).to_multiset(),
        sorted_by_name(pair_views(r@)),
{
    pairs.into_iter().sorted_by_key(|p: &(String, String)| p.0.clone()).collect()
}

/// Relies on `format!` (std's `Display` for `str`): two dashes, then the
/// name's characters, unchanged.
#[verifier::external_body]
fn dashed(name: &String) -> (r: String)
    ensures
        r@ == seq!['-', '-'] + name@,
{
    format!("--{}", name)
}

/// Relies on `format!` (std's `Display` for `u16`): the decimal digits of
/// `n`, most significant first, without sign or leading zeros.
#[verifier::external_body]
fn u16_to_decimal(n: u16) -> (r: String)
    ensures
        r@ == dec_str(n as nat),
{
    format!("{}", n)
}

/// Turns parameter pairs into the command line of a relaunch: the caller's
/// pairs minus any redirect-port entry, plus this launch's redirect port,
/// sorted by name, each pair flattened to a dashed name and its value.
pub fn assemble_params(params: Vec<(String, String)>, redirect_ui_port: u16) -> (r: Vec<String>)
    ensures
        exists|sorted: Seq<(Seq<char>, Seq<char>)>|
            {
                &&& sorted.to_multiset() == with_redirect_port(
                    pair_views(params@),
                    redirect_ui_port,
                ).to_multiset()
                &&& #[trigger] sorted_by_name(sorted)
                &&& r@.len() == 2 * sorted.len()
                &&& forall|i: int|
                    0 <= i < sorted.len() ==> (#[trigger] r@[2 * i])@ == seq!['-', '-']
                        + sorted[i].0 && r@[2 * i + 1]@ == sorted[i].1
            },
{
    let port_key: String = "ui-port".to_owned();
    let mut kept: Vec<(String, String)> = Vec::new();
    let mut i: usize = 0;
    while i < params.len()
        invariant
            i <= params@.len(),
            pair_views(kept@) == drop_port_entries(pair_views(params@.subrange(0, i as int))),
            port_key@ == "ui-port"@,
        decreases params@.len() - i,
    {
        let ghost prev = pair_views(params@.subrange(0, i as int));
        let ghost cur = pair_views(params@.subrange(0, i + 1));
        proof {
            assert(cur.drop_last() =~= prev);
            assert(cur.last() == (params@[i as int].0@, params@[i as int].1@));
        }
        if !(params[i].0 == port_key) {
            let name = params[i].0.clone();
            let value = params[i].1.clone();
            kept.push((name, value));
            proof {
                assert(pair_views(kept@) =~= drop_port_entries(prev).push(cur.last()));
            }
        } else {
            proof {
                assert(pair_views(kept@) =~= drop_port_entries(prev));
            }
        }
        i = i + 1;
    }
    proof {
        assert(params@.subrange(0, params@.len() as int) =~= params@);
    }
    let port_value = u16_to_decimal(redirect_ui_port);
    kept.push((port_key, port_value));
    proof {
        assert(pair_views(kept@) =~= with_redirect_port(pair_views(params@), redirect_ui_port));
    }
    let sorted = sort_pairs_by_name(kept);
    let ghost sorted_views = pair_views(sorted@);
    let mut args: Vec<String> = Vec::new();
    let mut j: usize = 0;
    while j < sorted.len()
        invariant
            j <= sorted@.len(),
            sorted_views == pair_views(sorted@),
            args@.len() == 2 * j,
            forall|k: int|
                0 <= k < j ==> (#[trigger] args@[2 * k])@ == seq!['-', '-'] + sorted_views[k].0
                    && args@[2 * k + 1]@ == sorted_views[k].1,
        decreases sorted@.len() - j,
    {
        let p = &sorted[j];
        args.push(dashed(&p.0));
        args.push(p.1.clone());
        j = j + 1;
        proof {
            assert(sorted_views[j - 1] == (sorted@[j - 1].0@, sorted@[j - 1].1@));
            assert(args@[2 * (j - 1)]@ == seq!['-', '-'] + sorted_views[j - 1].0);
            assert(args@[2 * (j - 1) + 1]@ == sorted_views[j - 1].1);
        }
    }
    proof {
        assert(exists|sorted: Seq<(Seq<char>, Seq<char>)>|
            {
                &&& sorted.to_multiset() == with_redirect_port(
                    pair_views(params@),
                    redirect_ui_port,
                ).to_multiset()
                &&& #[trigger] sorted_by_name(sorted)
                &&& args@.len() == 2 * sorted.len()
                &&& forall|i: int|
                    0 <= i < sorted.len() ==> (#[trigger] args@[2 * i])@ == seq!['-', '-']
                        + sorted[i].0 && args@[2 * i + 1]@ == sorted[i].1
            }) by {
            assert(sorted_views.to_multiset() == with_redirect_port(
                pair_views(params@),
                redirect_ui_port,
            ).to_multiset());
            assert(sorted_by_name(sorted_views));
            assert(args@.len() == 2 * sorted_views.len());
            assert(forall|k: int|
                0 <= k < sorted_views.len() ==> (#[trigger] args@[2 * k])@ == seq!['-', '-']
                    + sorted_views[k].0 && args@[2 * k + 1]@ == sorted_views[k].1);
        }
    }
    args
}

/// The port through which a relaunch is actually performed: hand it the
/// assembled command line, get back the new process id, or the shell's
/// error text.  The spawning implementation lives in the application shell;
/// tests supply deterministic doubles.
pub trait Execer {
    fn exec(&self, params: Vec<String>) -> Result<u32, String>;
}

/// The production execer.  Spawning this node's own executable is process
/// work the application shell owns, so the shell supplies the `Execer`
/// implementation wrapping this marker.
pub struct ExecerReal {}

impl ExecerReal {
    pub fn new() -> Self {
        ExecerReal {  }
    }
}

/// What a successful relaunch reports back.
#[derive(Clone, Copy, Debug, PartialEq, Eq, Structural)]
pub struct LaunchSuccess {
    pub new_process_id: u32,
    pub redirect_ui_port: u16,
}

/// Relaunches the node with adjusted parameters through an `Execer`.
pub struct LauncherReal<E: Execer> {
    pub execer: E,
}

impl<E: Execer> LauncherReal<E> {
    pub fn new(execer: E) -> (r: Self)
        ensures
            r.execer == execer,
    {
        LauncherReal { execer }
    }

    /// Assembles the command line — the caller's pairs with the redirect
    /// port substituted, sorted and flattened — and hands it to the
    /// execer once.  A success always reports back exactly the redirect
    /// port that was substituted in.
    pub fn launch(&self, params: Vec<(String, String)>, redirect_ui_port: u16) -> (r: Result<
        Option<LaunchSuccess>,
        String,
    >)
        ensures
            r matches Ok(op) ==> (op matches Some(ls) && ls.redirect_ui_port == redirect_ui_port),
    {
        let args = assemble_params(params, redirect_ui_port);
        match self.execer.exec(args) {
            Ok(new_process_id) => Ok(Some(LaunchSuccess { new_process_id, redirect_ui_port })),
            Err(s) => Err(s),
        }
    }
}

} // verus!
