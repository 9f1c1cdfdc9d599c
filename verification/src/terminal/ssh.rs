//! The command line of an SSH session.

use vstd::prelude::*;
use vstd::string::StringExecFns;
use crate::strings::{all_ascii_digits, dec, dec_string, digits_value, lemma_dec_digits, string_views};

verus! {

/// The arguments for `ssh`: the port unless it is 22, the identity file
/// when given, the extra arguments, then the destination (`user@host`, or
/// the host alone).
pub open spec fn ssh_args(
    host: Seq<char>,
    port: u16,
    username: Option<Seq<char>>,
    identity_file: Option<Seq<char>>,
    extra_args: Seq<Seq<char>>,
) -> Seq<Seq<char>> {
    let base = seq!["ssh"@];
    let with_port = if port != 22 {
        base + seq!["-p"@, dec(port as nat)]
    } else {
        base
    };
    let with_key = match identity_file {
        Some(k) => with_port + seq!["-i"@, k],
        None => with_port,
    };
    let destination = match username {
        Some(u) => u + "@"@ + host,
        None => host,
    };
    (with_key + extra_args).push(destination)
}

/// What the SSH command line says: it runs `ssh`; a port other than 22 is
/// passed as `-p` followed by its decimal digits (whether or not an identity
/// file is given), and port 22 is not passed; an identity file is passed as
/// `-i` and the file; the extra arguments follow in order; the destination
/// (`user@host`, or the host alone) comes last; nothing else is added.
pub proof fn ssh_command_line_law(
    host: Seq<char>,
    port: u16,
    username: Option<Seq<char>>,
    identity_file: Option<Seq<char>>,
    extra_args: Seq<Seq<char>>,
)
    ensures
        ({
            let a = ssh_args(host, port, username, identity_file, extra_args);
            let p: int = if port != 22 { 2 } else { 0 };
            let k: int = if identity_file is Some { 2 } else { 0 };
            &&& a.len() == 1 + p + k + extra_args.len() + 1
            &&& a[0] == "ssh"@
            &&& port != 22 ==> a[1] == "-p"@ && all_ascii_digits(a[2]) && digits_value(a[2])
                == port as nat
            &&& identity_file matches Some(f) ==> a[1 + p] == "-i"@ && a[2 + p] == f
            &&& forall|j: int|
                0 <= j < extra_args.len() ==> a[1 + p + k + j] == #[trigger] extra_args[j]
            &&& a.last() == match username {
                Some(u) => u + "@"@ + host,
                None => host,
            }
        }),
{
    lemma_dec_digits(port as nat);
}

/// The optional view of an optional string slice.
pub open spec fn opt_str_view(o: Option<&str>) -> Option<Seq<char>> {
    match o {
        Some(s) => Some(s@),
        None => None,
    }
}

fn push_str_arg(argv: &mut Vec<String>, s: &str)
    ensures
        string_views(final(argv)@) == string_views(old(argv)@).push(s@),
{
    let ghost before = argv@;
    argv.push(s.to_owned());
    proof {
        assert(string_views(argv@) =~= string_views(before).push(s@));
    }
}

/// Builds the argument vector of an SSH session (see `ssh_args`).
pub fn ssh_argv(
    host: &str,
    port: u16,
    username: Option<&str>,
    identity_file: Option<&str>,
    extra_args: &Vec<String>,
) -> (argv: Vec<String>)
    ensures
        string_views(argv@) == ssh_args(
            host@,
            port,
            opt_str_view(username),
            opt_str_view(identity_file),
            string_views(extra_args@),
        ),
{
    let mut argv: Vec<String> = Vec::new();
    push_str_arg(&mut argv, "ssh");
    if port != 22 {
        push_str_arg(&mut argv, "-p");
        let p = dec_string(port as u64);
        push_str_arg(&mut argv, p.as_str());
    }
    if let Some(key) = identity_file {
        push_str_arg(&mut argv, "-i");
        push_str_arg(&mut argv, key);
    }
    let ghost prefix = string_views(argv@);
    let mut i: usize = 0;
    while i < extra_args.len()
        invariant
            i <= extra_args@.len(),
            string_views(argv@) == prefix + string_views(extra_args@).take(i as int),
        decreases extra_args.len() - i,
    {
        push_str_arg(&mut argv, extra_args[i].as_str());
        proof {
            assert(string_views(extra_args@).take(i + 1) =~= string_views(extra_args@).take(
                i as int,
            ).push(extra_args@[i as int]@));
        }
        i += 1;
    }
    proof {
        assert(string_views(extra_args@).take(extra_args@.len() as int) =~= string_views(
            extra_args@,
        ));
    }
    let destination = match username {
        Some(user) => {
            let mut d = user.to_owned();
            d.append("@");
            d.append(host);
            d
        },
        None => host.to_owned(),
    };
    push_str_arg(&mut argv, destination.as_str());
    proof {
        let expected = ssh_args(
            host@,
            port,
            opt_str_view(username),
            opt_str_view(identity_file),
            string_views(extra_args@),
        );
        assert(string_views(argv@) =~= expected);
    }
    argv
}

/// The extra SSH arguments of a connection: a jump host (`-J`), connection
/// multiplexing (`-o ControlMaster=auto`), then each custom option as
/// `-o key=value`, in the given order.
pub open spec fn ssh_option_args(
    proxy_jump: Option<Seq<char>>,
    use_control_master: bool,
    custom_options: Seq<(Seq<char>, Seq<char>)>,
) -> Seq<Seq<char>> {
    let jump = match proxy_jump {
        Some(p) => seq!["-J"@, p],
        None => Seq::empty(),
    };
    let master = if use_control_master {
        seq!["-o"@, "ControlMaster=auto"@]
    } else {
        Seq::empty()
    };
    jump + master + custom_option_args(custom_options)
}

/// `-o key=value` for each custom option.
pub open spec fn custom_option_args(options: Seq<(Seq<char>, Seq<char>)>) -> Seq<Seq<char>>
    decreases options.len(),
{
    if options.len() == 0 {
        Seq::empty()
    } else {
        custom_option_args(options.drop_last()) + seq![
            "-o"@,
            options.last().0 + "="@ + options.last().1,
        ]
    }
}

/// Builds the extra SSH arguments of a connection (see `ssh_option_args`).
pub fn ssh_extra_args(
    proxy_jump: Option<&str>,
    use_control_master: bool,
    custom_options: &Vec<(String, String)>,
) -> (args: Vec<String>)
    ensures
        string_views(args@) == ssh_option_args(
            opt_str_view(proxy_jump),
            use_control_master,
            custom_options@.map_values(|o: (String, String)| (o.0@, o.1@)),
        ),
{
    let ghost opts = custom_options@.map_values(|o: (String, String)| (o.0@, o.1@));
    let mut args: Vec<String> = Vec::new();
    if let Some(proxy) = proxy_jump {
        push_str_arg(&mut args, "-J");
        push_str_arg(&mut args, proxy);
    }
    if use_control_master {
        push_str_arg(&mut args, "-o");
        push_str_arg(&mut args, "ControlMaster=auto");
    }
    let ghost prefix = string_views(args@);
    let mut i: usize = 0;
    while i < custom_options.len()
        invariant
            i <= custom_options@.len(),
            opts == custom_options@.map_values(|o: (String, String)| (o.0@, o.1@)),
            string_views(args@) == prefix + custom_option_args(opts.take(i as int)),
        decreases custom_options.len() - i,
    {
        push_str_arg(&mut args, "-o");
        let (k, v) = &custom_options[i];
        let mut kv = k.clone();
        kv.append("=");
        kv.append(v.as_str());
        push_str_arg(&mut args, kv.as_str());
        proof {
            assert(opts.take(i + 1).drop_last() =~= opts.take(i as int));
            assert(string_views(args@) =~= prefix + custom_option_args(opts.take(i + 1)));
        }
        i += 1;
    }
    proof {
        assert(opts.take(opts.len() as int) =~= opts);
        let jump = match opt_str_view(proxy_jump) {
            Some(p) => seq!["-J"@, p],
            None => Seq::<Seq<char>>::empty(),
        };
        let master = if use_control_master {
            seq!["-o"@, "ControlMaster=auto"@]
        } else {
            Seq::<Seq<char>>::empty()
        };
        assert(prefix =~= jump + master);
    }
    args
}

} // verus!
