use vstd::prelude::*;

use crate::athena::{builtin_ops, BuiltinFn, BuiltinOp};
use crate::text::{push_char, push_str};

verus! {

/// The banner shown when a session starts.
pub const HEADER: &'static str = "
  ▄█████████▄ ┏████▄   ┏████▄
 ┏███━━━━┓███ ┗━┓███   ┗━┓███
 ┃███    ┃███   ┃███     ┃███ ▄▄▄▄    ▄████████  ┏███▄ ▄▄▄▄▄    ▄███████▄
 ┃███    ┃███ ┏███████   ┃█████████  ┏███━━━┓███ ┗━┓█████████  ┏██━━━━┓██
 ┃███████████ ┗━┓███┛    ┃███━━┓███  ┃██████████   ┃███━━┓███  ┗━┛▄█████▌
 ┃███━━━━┓███   ┃███     ┃███  ┃███  ┃███━━━━━┛    ┃███  ┃███  ┏██━━━━┓██
 ┃███    ┃███   ┃███ ▄▄  ┃███  ┃███  ┃███▄   ███   ┃███  ┃███  ┃██    ┃██▄
┏█████  ┏█████  ┗┓█████ ┏████▌┏█████ ┗┓████████   ┏████▌┏█████ ┗┓██████┓███
┗━━━┛   ┗━━━┛    ┗━━━┛  ┗━━┛  ┗━━━┛   ┗━━━━━━┛    ┗━━┛  ┗━━━┛   ┗━━━━┛ ┗━┛
";

/// The commands a session understands besides expressions, with what they do.
pub open spec fn help_table() -> Seq<(Seq<char>, Seq<char>)> {
    seq![
        ("help"@, "print out this message"@),
        ("functions"@, "list all available functions"@),
        ("clear"@, "clear the screen (Ctrl-l)"@),
        ("dark"@, "dark mode"@),
        ("light"@, "light mode"@),
    ]
}

fn help_commands() -> (r: Vec<(&'static str, &'static str)>)
    ensures
        r@.map_values(|p: (&str, &str)| (p.0@, p.1@)) == help_table(),
{
    let r = vec![
        ("help", "print out this message"),
        ("functions", "list all available functions"),
        ("clear", "clear the screen (Ctrl-l)"),
        ("dark", "dark mode"),
        ("light", "light mode"),
    ];
    assert(r@.map_values(|p: (&str, &str)| (p.0@, p.1@)) =~= help_table());
    r
}

/// The length of the longest command name among the first `n` rows.
pub open spec fn widest(rows: Seq<(Seq<char>, Seq<char>)>, n: int) -> nat
    decreases n,
{
    if n <= 0 {
        0
    } else {
        let w = widest(rows, n - 1);
        let l = rows[n - 1].0.len();
        if l > w {
            l
        } else {
            w
        }
    }
}

/// `s` followed by spaces up to `width` characters.
pub open spec fn pad(s: Seq<char>, width: nat) -> Seq<char> {
    s + Seq::new((width - s.len()) as nat, |i: int| ' ')
}

/// The first `n` rows of help, each `command - description`, with the commands
/// padded to `width`, joined by newlines.
pub open spec fn help_lines(rows: Seq<(Seq<char>, Seq<char>)>, n: int, width: nat) -> Seq<char>
    decreases n,
{
    if n <= 0 {
        seq![]
    } else {
        let line = pad(rows[n - 1].0, width) + " - "@ + rows[n - 1].1;
        if n == 1 {
            line
        } else {
            help_lines(rows, n - 1, width) + "\n"@ + line
        }
    }
}

pub open spec fn help_text() -> Seq<char> {
    help_lines(help_table(), 5, widest(help_table(), 5))
}

/// The catalogue of builtins, one signature per line, each line ended.
pub open spec fn builtin_listing(ops: Seq<BuiltinOp>) -> Seq<char>
    decreases ops.len(),
{
    if ops.len() == 0 {
        seq![]
    } else {
        builtin_listing(ops.drop_last()) + BuiltinFn { op: ops.last() }.spec_signature() + "\n"@
    }
}

/// The texts a front-end session shows besides results.
#[derive(Clone, Copy, Debug, PartialEq, Eq, Structural)]
pub struct AthenaContext {}

impl AthenaContext {
    pub fn new() -> (r: AthenaContext) {
        AthenaContext {  }
    }

    /// Every builtin's signature, one per line.
    pub fn list_builtins(&self) -> (r: String)
        ensures
            r@ == builtin_listing(crate::athena::builtin_table()),
    {
        let ops = builtin_ops();
        let mut buf = String::new();
        let mut i: usize = 0;
        while i < ops.len()
            invariant
                i <= ops.len(),
                ops@ == crate::athena::builtin_table(),
                buf@ == builtin_listing(ops@.subrange(0, i as int)),
            decreases ops.len() - i,
        {
            let f = BuiltinFn { op: ops[i] };
            let line = f.to_string();
            push_str(&mut buf, line.as_str());
            push_str(&mut buf, "\n");
            proof {
                let sub = ops@.subrange(0, i + 1);
                assert(sub.drop_last() =~= ops@.subrange(0, i as int));
            }
            i = i + 1;
        }
        assert(ops@.subrange(0, ops.len() as int) =~= ops@);
        buf
    }

    /// The banner followed by the help.
    pub fn startup(&self) -> (r: String)
        ensures
            r@ == HEADER@ + "\n"@ + help_text(),
    {
        let mut out = String::new();
        push_str(&mut out, HEADER);
        push_str(&mut out, "\n");
        let h = self.help();
        push_str(&mut out, h.as_str());
        out
    }

    /// One line per command: the command, padded to the longest, and what it does.
    pub fn help(&self) -> (r: String)
        ensures
            r@ == help_text(),
    {
        let rows = help_commands();
        let ghost tv = rows@.map_values(|p: (&str, &str)| (p.0@, p.1@));
        assert(help_table().len() == 5);
        assert(tv.len() == rows@.len());
        let mut indent: usize = 0;
        let mut i: usize = 0;
        while i < rows.len()
            invariant
                i <= rows.len(),
                rows.len() == 5,
                tv == rows@.map_values(|p: (&str, &str)| (p.0@, p.1@)),
                tv == help_table(),
                indent == widest(tv, i as int),
                indent <= 9,
            decreases rows.len() - i,
        {
            let l = rows[i].0.unicode_len();
            assert(tv[i as int].0 == rows@[i as int].0@);
            if l > indent {
                indent = l;
            }
            proof {
                reveal_strlit("help");
                reveal_strlit("functions");
                reveal_strlit("clear");
                reveal_strlit("dark");
                reveal_strlit("light");
            }
            i = i + 1;
        }
        let mut out = String::new();
        let mut k: usize = 0;
        while k < rows.len()
            invariant
                k <= rows.len(),
                rows.len() == 5,
                tv == rows@.map_values(|p: (&str, &str)| (p.0@, p.1@)),
                tv == help_table(),
                indent == widest(tv, 5),
                out@ == help_lines(tv, k as int, indent as nat),
            decreases rows.len() - k,
        {
            let ghost before = out@;
            if k > 0 {
                push_str(&mut out, "\n");
            }
            let (cmd, desc) = rows[k];
            assert(tv[k as int] == (cmd@, desc@));
            push_str(&mut out, cmd);
            let n = cmd.unicode_len();
            let mut j = n;
            proof {
                assert(widest(tv, k as int + 1) <= widest(tv, 5)) by {
                    lemma_widest_mono(tv, k as int + 1, 5);
                }
            }
            while j < indent
                invariant
                    n <= j <= indent || (n > indent && j == n),
                    out@ == before + (if k > 0 { "\n"@ } else { seq![] }) + cmd@ + Seq::new(
                        (j - n) as nat,
                        |i: int| ' ',
                    ),
                decreases indent - j,
            {
                push_char(&mut out, ' ');
                assert(Seq::new((j + 1 - n) as nat, |i: int| ' ') =~= Seq::new(
                    (j - n) as nat,
                    |i: int| ' ',
                ).push(' '));
                j = j + 1;
            }
            push_str(&mut out, " - ");
            push_str(&mut out, desc);
            proof {
                let line = pad(tv[k as int].0, indent as nat) + " - "@ + tv[k as int].1;
                assert(Seq::new((j - n) as nat, |i: int| ' ') =~= Seq::new(
                    (indent - cmd@.len()) as nat,
                    |i: int| ' ',
                ));
                if k == 0 {
                    assert(out@ =~= line);
                } else {
                    assert(out@ =~= before + "\n"@ + line);
                }
            }
            k = k + 1;
        }
        out
    }
}

proof fn lemma_widest_mono(rows: Seq<(Seq<char>, Seq<char>)>, a: int, b: int)
    requires
        0 <= a <= b,
    ensures
        widest(rows, a) <= widest(rows, b),
    decreases b - a,
{
    if a < b {
        lemma_widest_mono(rows, a, b - 1);
    }
}

} // verus!
