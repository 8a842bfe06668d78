//! Settings given on the command line: the child's extra environment and whether
//! the proxy may listen where it was asked to.

use crate::text;
use vstd::prelude::*;

verus! {

/// Reading `KEY=VALUE` items, stopping at the first that is not one: a missing
/// `=`, or a key that is empty or holds a NUL.
pub open spec fn env_pairs_from(items: Seq<Seq<char>>) -> Result<Seq<(Seq<char>, Seq<char>)>, Seq<char>>
    decreases items.len(),
{
    if items.len() == 0 {
        Ok(Seq::empty())
    } else {
        match env_pairs_from(items.drop_last()) {
            Err(e) => Err(e),
            Ok(pairs) => {
                let item = items.last();
                match text::split_once(item, '=') {
                    None => Err("invalid --env value '"@ + item + "', expected KEY=VALUE"@),
                    Some((k, v)) => if k.len() == 0 || k.contains('\0') {
                        Err("invalid environment key '"@ + k + "'"@)
                    } else {
                        Ok(pairs.push((k, v)))
                    },
                }
            },
        }
    }
}

/// Reads the child's extra environment from `KEY=VALUE` items.
pub fn parse_env_pairs(items: &Vec<String>) -> (r: Result<Vec<(String, String)>, String>)
    ensures
        match env_pairs_from(text::views(items@)) {
            Ok(ps) => r matches Ok(v) && crate::capture::model::headers_view(v@) == ps,
            Err(e) => r matches Err(m) && m@ == e,
        },
{
    let ghost all = text::views(items@);
    let mut out: Vec<(String, String)> = Vec::new();
    let mut i: usize = 0;
    proof {
        assert(all.take(0) =~= Seq::<Seq<char>>::empty());
        assert(crate::capture::model::headers_view(out@) =~= Seq::<(Seq<char>, Seq<char>)>::empty());
    }
    while i < items.len()
        invariant
            0 <= i <= items@.len(),
            all == text::views(items@),
            env_pairs_from(all.take(i as int)) == Ok::<Seq<(Seq<char>, Seq<char>)>, Seq<char>>(
                crate::capture::model::headers_view(out@),
            ),
        decreases items.len() - i,
    {
        proof {
            assert(all.take(i + 1).drop_last() =~= all.take(i as int));
            assert(all.take(i + 1).last() == items@[i as int]@);
        }
        match text::split_once_char(items[i].as_str(), '=') {
            None => {
                let mut e = text::to_owned("invalid --env value '");
                text::push_str(&mut e, items[i].as_str());
                text::push_str(&mut e, "', expected KEY=VALUE");
                proof {
                    lemma_env_pairs_error_stays(all, i as int + 1, e@);
                    assert(all.take(all.len() as int) =~= all);
                }
                return Err(e);
            },
            Some((k, v)) => {
                let kc = text::chars_of(k.as_str());
                let mut has_nul = false;
                let mut j: usize = 0;
                while j < kc.len()
                    invariant
                        0 <= j <= kc@.len(),
                        kc@ == k@,
                        has_nul == (exists|q: int| 0 <= q < j && kc@[q] == '\0'),
                    decreases kc.len() - j,
                {
                    if kc[j] == '\0' {
                        has_nul = true;
                    }
                    j = j + 1;
                }
                proof {
                    assert(has_nul == k@.contains('\0')) by {
                        if k@.contains('\0') {
                            let q = choose|q: int| 0 <= q < k@.len() && k@[q] == '\0';
                            assert(kc@[q] == '\0');
                        }
                    }
                }
                if kc.len() == 0 || has_nul {
                    let mut e = text::to_owned("invalid environment key '");
                    text::push_str(&mut e, k.as_str());
                    text::push_str(&mut e, "'");
                    proof {
                        lemma_env_pairs_error_stays(all, i as int + 1, e@);
                        assert(all.take(all.len() as int) =~= all);
                    }
                    return Err(e);
                }
                let ghost before = out@;
                out.push((k, v));
                proof {
                    assert(crate::capture::model::headers_view(out@) =~= crate::capture::model::headers_view(before).push(
                        (out@.last().0@, out@.last().1@),
                    ));
                }
            },
        }
        i = i + 1;
    }
    proof {
        assert(all.take(items@.len() as int) =~= all);
    }
    Ok(out)
}

/// Once reading stops at an item, it stops there whatever follows.
proof fn lemma_env_pairs_error_stays(items: Seq<Seq<char>>, k: int, e: Seq<char>)
    requires
        0 < k <= items.len(),
        env_pairs_from(items.take(k)) == Err::<Seq<(Seq<char>, Seq<char>)>, Seq<char>>(e),
    ensures
        env_pairs_from(items) == Err::<Seq<(Seq<char>, Seq<char>)>, Seq<char>>(e),
    decreases items.len() - k,
{
    if k < items.len() {
        assert(items.take(k + 1).drop_last() =~= items.take(k));
        lemma_env_pairs_error_stays(items, k + 1, e);
    } else {
        assert(items.take(k) =~= items);
    }
}

/// Whether the proxy may listen where it was asked to: a loopback address always; any
/// other only when external listening was allowed, and then with a warning.
pub open spec fn listen_check_of(addr: Seq<char>, is_loopback: bool, allow_external: bool) -> Result<Option<Seq<char>>, Seq<char>> {
    if !is_loopback && !allow_external {
        Err(
            "refusing to listen on "@ + addr
                + "; use --allow-external only for an explicitly trusted test network"@,
        )
    } else if !is_loopback {
        Ok(Some("Warning: proxy is listening on "@ + addr + ". Other hosts may be able to connect."@))
    } else {
        Ok(None)
    }
}

/// Whether the proxy may listen at `addr` (as it is shown), and the warning to
/// print when it listens beyond loopback.
pub fn listen_check(addr: &str, is_loopback: bool, allow_external: bool) -> (r: Result<Option<String>, String>)
    ensures
        match listen_check_of(addr@, is_loopback, allow_external) {
            Ok(None) => r matches Ok(None),
            Ok(Some(w)) => r matches Ok(Some(x)) && x@ == w,
            Err(e) => r matches Err(m) && m@ == e,
        },
{
    if !is_loopback && !allow_external {
        let mut e = text::to_owned("refusing to listen on ");
        text::push_str(&mut e, addr);
        text::push_str(&mut e, "; use --allow-external only for an explicitly trusted test network");
        return Err(e);
    }
    if !is_loopback {
        let mut w = text::to_owned("Warning: proxy is listening on ");
        text::push_str(&mut w, addr);
        text::push_str(&mut w, ". Other hosts may be able to connect.");
        return Ok(Some(w));
    }
    Ok(None)
}

} // verus!
