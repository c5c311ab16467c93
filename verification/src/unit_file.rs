//! The systemd unit file that installs the cache as a service.
use vstd::prelude::*;
use vstd::string::*;
use crate::text::owned;

verus! {

/// The pieces that splitting `s` at each `;` gives (`str::split(';')`):
/// one more piece than there are semicolons, empty pieces included.
pub open spec fn split_pieces(s: Seq<char>) -> Seq<Seq<char>>
    decreases s.len(),
{
    if s.len() == 0 {
        seq![Seq::<char>::empty()]
    } else {
        let p = split_pieces(s.drop_last());
        if s.last() == ';' {
            p.push(Seq::<char>::empty())
        } else {
            p.update(p.len() - 1, p.last().push(s.last()))
        }
    }
}

/// One `Environment="..."` line per piece, each after a line break.
pub open spec fn environment_lines(pieces: Seq<Seq<char>>) -> Seq<char>
    decreases pieces.len(),
{
    if pieces.len() == 0 {
        Seq::empty()
    } else {
        environment_lines(pieces.drop_last()) + "\nEnvironment=\""@ + pieces.last() + "\""@
    }
}

/// The unit file for a service with the given description, executable,
/// extra environment (`key=value` settings separated by `;`) and extra
/// command-line arguments.
pub open spec fn service_file_text(
    description: Seq<char>,
    exec_path: Seq<char>,
    additional_env: Seq<char>,
    additional_args: Seq<char>,
) -> Seq<char> {
    "[Unit]\nDescription="@ + description + "\nAfter=network.target\n\n[Service]\nEnvironment=\"ENCRYPTION_ENABLED=true\""@
        + environment_lines(split_pieces(additional_env)) + "\nExecStart="@ + exec_path + " "@
        + additional_args + "\n\n[Install]\nWantedBy=multi-user.target\n"@
}

/// There is always at least one piece.
pub proof fn lemma_split_pieces_nonempty(s: Seq<char>)
    ensures
        split_pieces(s).len() >= 1,
    decreases s.len(),
{
    if s.len() > 0 {
        lemma_split_pieces_nonempty(s.drop_last());
    }
}

/// The `Environment=` lines for the `;`-separated settings in `env`.
pub fn environment_block(env: &str) -> (out: String)
    ensures
        out@ == environment_lines(split_pieces(env@)),
{
    let n = env.unicode_len();
    let mut out = owned("\nEnvironment=\"");
    let mut start: usize = 0;
    let mut i: usize = 0;
    proof {
        assert(env@.take(0) =~= Seq::<char>::empty());
        assert(split_pieces(env@.take(0)).drop_last() =~= Seq::<Seq<char>>::empty());
        assert(env@.subrange(0, 0) =~= Seq::<char>::empty());
    }
    while i < n
        invariant
            n == env@.len(),
            start <= i <= n,
            split_pieces(env@.take(i as int)).len() >= 1,
            out@ == environment_lines(split_pieces(env@.take(i as int)).drop_last())
                + "\nEnvironment=\""@,
            split_pieces(env@.take(i as int)).last() == env@.subrange(start as int, i as int),
        decreases n - i,
    {
        let ghost p = split_pieces(env@.take(i as int));
        proof {
            assert(env@.take(i + 1).drop_last() =~= env@.take(i as int));
            assert(env@.take(i + 1).last() == env@[i as int]);
        }
        let c = env.get_char(i);
        if c == ';' {
            let piece = env.substring_char(start, i);
            out.append(piece);
            out.append("\"");
            out.append("\nEnvironment=\"");
            start = i + 1;
            proof {
                let q = split_pieces(env@.take(i + 1));
                assert(q == p.push(Seq::<char>::empty()));
                assert(q.drop_last() =~= p);
                assert(p.drop_last().push(p.last()) =~= p);
                assert(env@.subrange(start as int, i + 1) =~= Seq::<char>::empty());
            }
        } else {
            proof {
                let q = split_pieces(env@.take(i + 1));
                assert(q == p.update(p.len() - 1, p.last().push(c)));
                assert(q.drop_last() =~= p.drop_last());
                assert(env@.subrange(start as int, i + 1) =~= env@.subrange(start as int, i as int).push(
                    c,
                ));
            }
        }
        i = i + 1;
    }
    let piece = env.substring_char(start, n);
    out.append(piece);
    out.append("\"");
    proof {
        let p = split_pieces(env@.take(n as int));
        assert(env@.take(n as int) =~= env@);
        assert(p.drop_last().push(p.last()) =~= p);
    }
    out
}

/// The unit file text (see `service_file_text`).
pub fn service_file_content(
    description: &str,
    exec_path: &str,
    additional_env: &str,
    additional_args: &str,
) -> (content: String)
    ensures
        content@ == service_file_text(description@, exec_path@, additional_env@, additional_args@),
{
    let mut s = owned("[Unit]\nDescription=");
    s.append(description);
    s.append("\nAfter=network.target\n\n[Service]\nEnvironment=\"ENCRYPTION_ENABLED=true\"");
    let env = environment_block(additional_env);
    s.append(env.as_str());
    s.append("\nExecStart=");
    s.append(exec_path);
    s.append(" ");
    s.append(additional_args);
    s.append("\n\n[Install]\nWantedBy=multi-user.target\n");
    s
}

/// Where systemd finds the unit file of a service.
pub fn service_file_path(service_name: &str) -> (path: String)
    ensures
        path@ == "/etc/systemd/system/"@ + service_name@ + ".service"@,
{
    let mut s = owned("/etc/systemd/system/");
    s.append(service_name);
    s.append(".service");
    s
}

} // verus!
