//! Serializes the registry to the text exposition format: per family a
//! help comment, a type comment (always gauge) and one line per sample.
//! Families are ordered by name, label pairs by key, sample lines
//! lexicographically, so rendering is a function of the registry alone.

use vstd::prelude::*;
use vstd::string::StringExecFns;
use vstd::string::StrSliceExecFns;
use crate::registry::{
    FamilyV, SampleV, LabelV, MetricRegistry, MetricFamily, MetricSample, labels_view,
    sort_pairs, sort_pairs_by_key,
};
use crate::text::{dec_str, u64_to_dec, push_char, to_chars};

verus! {

/// Escape sequence for one character inside a quoted label value.
pub open spec fn esc_label_char(c: char) -> Seq<char> {
    if c == '\\' {
        "\\\\"@
    } else if c == '"' {
        "\\\""@
    } else if c == '\n' {
        "\\n"@
    } else {
        seq![c]
    }
}

/// A label value with backslash, quote and newline escaped.
pub open spec fn escape_label(s: Seq<char>) -> Seq<char>
    decreases s.len(),
{
    if s.len() == 0 {
        Seq::empty()
    } else {
        escape_label(s.drop_last()) + esc_label_char(s.last())
    }
}

/// Escape sequence for one character of a help text.
pub open spec fn esc_help_char(c: char) -> Seq<char> {
    if c == '\\' {
        "\\\\"@
    } else if c == '\n' {
        "\\n"@
    } else {
        seq![c]
    }
}

/// A help text with backslash and newline escaped.
pub open spec fn escape_help(s: Seq<char>) -> Seq<char>
    decreases s.len(),
{
    if s.len() == 0 {
        Seq::empty()
    } else {
        escape_help(s.drop_last()) + esc_help_char(s.last())
    }
}

/// `key="escaped value"`.
pub open spec fn pair_text(l: LabelV) -> Seq<char> {
    l.0 + "=\""@ + escape_label(l.1) + "\""@
}

/// Label pairs joined with commas.
pub open spec fn labels_text(labels: Seq<LabelV>) -> Seq<char>
    decreases labels.len(),
{
    if labels.len() == 0 {
        Seq::empty()
    } else if labels.len() == 1 {
        pair_text(labels[0])
    } else {
        labels_text(labels.drop_last()) + ","@ + pair_text(labels.last())
    }
}

/// The `{...}` part of a sample line; empty when there are no labels.
pub open spec fn label_part(labels: Seq<LabelV>) -> Seq<char> {
    if labels.len() == 0 {
        Seq::empty()
    } else {
        "{"@ + labels_text(labels) + "}"@
    }
}

/// One sample line: name, labels, space, decimal value, newline.
pub open spec fn sample_line(name: Seq<char>, s: SampleV) -> Seq<char> {
    name + label_part(s.labels) + " "@ + dec_str(s.value as int) + "\n"@
}

/// Sample lines of a family, paired for the generic pair sorter (the
/// second component is unused).
pub open spec fn line_pairs(f: FamilyV) -> Seq<LabelV> {
    f.samples.map_values(|s: SampleV| (sample_line(f.name, s), Seq::<char>::empty()))
}

/// Concatenation of the first components.
pub open spec fn concat_firsts(s: Seq<LabelV>) -> Seq<char>
    decreases s.len(),
{
    if s.len() == 0 {
        Seq::empty()
    } else {
        concat_firsts(s.drop_last()) + s.last().0
    }
}

/// Concatenation of the second components.
pub open spec fn concat_snds(s: Seq<LabelV>) -> Seq<char>
    decreases s.len(),
{
    if s.len() == 0 {
        Seq::empty()
    } else {
        concat_snds(s.drop_last()) + s.last().1
    }
}

/// A family's block: help comment, type comment, sorted sample lines.
pub open spec fn family_block(f: FamilyV) -> Seq<char> {
    "# HELP "@ + f.name + " "@ + escape_help(f.help) + "\n"@ + "# TYPE "@ + f.name
        + " gauge\n"@ + concat_firsts(sort_pairs(line_pairs(f)))
}

/// (name, block) pairs of all families, in registry order.
pub open spec fn family_blocks(reg: Seq<FamilyV>) -> Seq<LabelV> {
    reg.map_values(|f: FamilyV| (f.name, family_block(f)))
}

/// The rendered exposition text: family blocks sorted by family name.
pub open spec fn spec_render(reg: Seq<FamilyV>) -> Seq<char> {
    concat_snds(sort_pairs(family_blocks(reg)))
}

/// Law: rendering is deterministic.  `render` promises its output equals
/// `spec_render` of the registry's contents, a function of those contents
/// alone, so two renderings of an unchanged registry are byte-identical;
/// `lemma_sort_pairs_sorted` gives the name ordering of the family blocks
/// and, through the registry's well-formedness, the key ordering of each
/// sample's labels.
pub proof fn lemma_render_deterministic(
    reg: Seq<FamilyV>,
    out1: Seq<char>,
    out2: Seq<char>,
)
    requires
        out1 == spec_render(reg),
        out2 == spec_render(reg),
    ensures
        out1 == out2,
{
}

/// Escapes a label value for quoting.
fn escape_label_exec(v: &str) -> (r: String)
    ensures
        r@ == escape_label(v@),
{
    let cs = to_chars(v);
    let mut r = String::new();
    let mut i: usize = 0;
    proof {
        assert(cs@.subrange(0, 0) =~= Seq::<char>::empty());
    }
    while i < cs.len()
        invariant
            i <= cs@.len(),
            cs@ == v@,
            r@ == escape_label(cs@.subrange(0, i as int)),
        decreases cs@.len() - i,
    {
        let c = cs[i];
        if c == '\\' {
            r.append("\\\\");
        } else if c == '"' {
            r.append("\\\"");
        } else if c == '\n' {
            r.append("\\n");
        } else {
            push_char(&mut r, c);
            proof {
                assert(seq![c] =~= esc_label_char(c));
                assert(r@ =~= escape_label(cs@.subrange(0, i as int)) + esc_label_char(c));
            }
        }
        i = i + 1;
        proof {
            assert(cs@.subrange(0, i as int).drop_last() =~= cs@.subrange(0, i - 1));
            assert(cs@.subrange(0, i as int).last() == c);
        }
    }
    proof {
        assert(cs@.subrange(0, cs@.len() as int) =~= v@);
    }
    r
}

/// Escapes a help text.
fn escape_help_exec(v: &str) -> (r: String)
    ensures
        r@ == escape_help(v@),
{
    let cs = to_chars(v);
    let mut r = String::new();
    let mut i: usize = 0;
    proof {
        assert(cs@.subrange(0, 0) =~= Seq::<char>::empty());
    }
    while i < cs.len()
        invariant
            i <= cs@.len(),
            cs@ == v@,
            r@ == escape_help(cs@.subrange(0, i as int)),
        decreases cs@.len() - i,
    {
        let c = cs[i];
        if c == '\\' {
            r.append("\\\\");
        } else if c == '\n' {
            r.append("\\n");
        } else {
            push_char(&mut r, c);
            proof {
                assert(seq![c] =~= esc_help_char(c));
                assert(r@ =~= escape_help(cs@.subrange(0, i as int)) + esc_help_char(c));
            }
        }
        i = i + 1;
        proof {
            assert(cs@.subrange(0, i as int).drop_last() =~= cs@.subrange(0, i - 1));
            assert(cs@.subrange(0, i as int).last() == c);
        }
    }
    proof {
        assert(cs@.subrange(0, cs@.len() as int) =~= v@);
    }
    r
}

/// Renders one sample line.
fn render_sample_line(name: &str, s: &MetricSample) -> (r: String)
    ensures
        r@ == sample_line(name@, s@),
{
    let mut r = String::new();
    r.append(name);
    if s.labels.len() > 0 {
        r.append("{");
        let mut i: usize = 0;
        while i < s.labels.len()
            invariant
                1 <= s.labels@.len(),
                i <= s.labels@.len(),
                i == 0 ==> r@ == name@ + "{"@,
                i >= 1 ==> r@ == name@ + "{"@ + labels_text(
                    labels_view(s.labels@).subrange(0, i as int),
                ),
            decreases s.labels@.len() - i,
        {
            if i > 0 {
                r.append(",");
            }
            let key = &s.labels[i].0;
            let val = &s.labels[i].1;
            r.append(key.as_str());
            r.append("=\"");
            let esc = escape_label_exec(val.as_str());
            r.append(esc.as_str());
            r.append("\"");
            i = i + 1;
            proof {
                let lv = labels_view(s.labels@);
                assert(lv[i - 1] == (s.labels@[i - 1].0@, s.labels@[i - 1].1@));
                assert(lv.subrange(0, i as int).drop_last() =~= lv.subrange(0, i - 1));
                assert(lv.subrange(0, i as int).last() == lv[i - 1]);
                if i == 1 {
                    assert(labels_text(lv.subrange(0, 1)) == pair_text(lv[0]));
                }
            }
        }
        r.append("}");
        proof {
            let lv = labels_view(s.labels@);
            assert(lv.subrange(0, lv.len() as int) =~= lv);
        }
    }
    r.append(" ");
    let dec = u64_to_dec(s.value);
    r.append(dec.as_str());
    r.append("\n");
    proof {
        assert(r@ =~= sample_line(name@, s@));
    }
    r
}

/// Renders one family's block with its sample lines sorted.
fn render_family_block(f: &MetricFamily) -> (r: String)
    ensures
        r@ == family_block(f@),
{
    let mut lines: Vec<(String, String)> = Vec::new();
    let mut i: usize = 0;
    proof {
        assert(labels_view(lines@) =~= line_pairs(f@).subrange(0, 0));
    }
    while i < f.samples.len()
        invariant
            i <= f.samples@.len(),
            lines@.len() == i,
            labels_view(lines@) == line_pairs(f@).subrange(0, i as int),
        decreases f.samples@.len() - i,
    {
        let line = render_sample_line(f.name.as_str(), &f.samples[i]);
        lines.push((line, String::new()));
        i = i + 1;
        proof {
            let lp = line_pairs(f@);
            assert(lp.len() == f@.samples.len());
            assert(f@.samples[i - 1] == f.samples@[i - 1]@);
            assert(lp[i - 1] == (sample_line(f@.name, f@.samples[i - 1]), Seq::<char>::empty()));
            assert(lines@.len() == i);
            assert(lines@[i - 1].0@ == sample_line(f@.name, f@.samples[i - 1]));
            assert(lines@[i - 1].1@ == Seq::<char>::empty());
            assert(labels_view(lines@)[i - 1] == (lines@[i - 1].0@, lines@[i - 1].1@));
            assert(labels_view(lines@) =~~= lp.subrange(0, i as int));
        }
    }
    proof {
        assert(line_pairs(f@).subrange(0, f.samples@.len() as int) =~= line_pairs(f@));
    }
    let sorted = sort_pairs_by_key(lines);
    let mut r = String::new();
    r.append("# HELP ");
    r.append(f.name.as_str());
    r.append(" ");
    let help = escape_help_exec(f.help.as_str());
    r.append(help.as_str());
    r.append("\n");
    r.append("# TYPE ");
    r.append(f.name.as_str());
    r.append(" gauge\n");
    let mut j: usize = 0;
    let ghost sv = labels_view(sorted@);
    let ghost head = "# HELP "@ + f@.name + " "@ + escape_help(f@.help) + "\n"@ + "# TYPE "@
        + f@.name + " gauge\n"@;
    proof {
        assert(sv.subrange(0, 0) =~= Seq::<LabelV>::empty());
        assert(r@ == head + concat_firsts(sv.subrange(0, 0)));
    }
    while j < sorted.len()
        invariant
            j <= sorted@.len(),
            sv == labels_view(sorted@),
            head == "# HELP "@ + f@.name + " "@ + escape_help(f@.help) + "\n"@ + "# TYPE "@
                + f@.name + " gauge\n"@,
            r@ == head + concat_firsts(sv.subrange(0, j as int)),
        decreases sorted@.len() - j,
    {
        r.append(sorted[j].0.as_str());
        j = j + 1;
        proof {
            assert(sv[j - 1] == (sorted@[j - 1].0@, sorted@[j - 1].1@));
            assert(sv.subrange(0, j as int).drop_last() =~= sv.subrange(0, j - 1));
            assert(sv.subrange(0, j as int).last() == sv[j - 1]);
        }
    }
    proof {
        assert(sv.subrange(0, sv.len() as int) =~= sv);
        assert(r@ == family_block(f@));
    }
    r
}

/// Renders the whole registry.  The output is a function of the
/// registry's current contents alone: rendering an unchanged registry
/// twice yields byte-identical text.
pub fn render(reg: &MetricRegistry) -> (r: String)
    ensures
        r@ == spec_render(reg@),
{
    let fams = reg.snapshot_all();
    let mut blocks: Vec<(String, String)> = Vec::new();
    let mut i: usize = 0;
    proof {
        assert(labels_view(blocks@) =~= family_blocks(reg@).subrange(0, 0));
    }
    while i < fams.len()
        invariant
            i <= fams@.len(),
            blocks@.len() == i,
            fams@.map_values(|f: MetricFamily| f@) == reg@,
            labels_view(blocks@) == family_blocks(reg@).subrange(0, i as int),
        decreases fams@.len() - i,
    {
        let block = render_family_block(&fams[i]);
        blocks.push((fams[i].name.clone(), block));
        i = i + 1;
        proof {
            assert(reg@[i - 1] == fams@[i - 1]@);
            assert(family_blocks(reg@)[i - 1] == (reg@[i - 1].name, family_block(reg@[i - 1])));
            assert(labels_view(blocks@) =~~= family_blocks(reg@).subrange(0, i as int));
        }
    }
    proof {
        assert(family_blocks(reg@).subrange(0, reg@.len() as int) =~= family_blocks(reg@));
    }
    let sorted = sort_pairs_by_key(blocks);
    let mut r = String::new();
    let mut j: usize = 0;
    let ghost sv = labels_view(sorted@);
    proof {
        assert(sv.subrange(0, 0) =~= Seq::<LabelV>::empty());
        assert(r@ =~= concat_snds(sv.subrange(0, 0)));
    }
    while j < sorted.len()
        invariant
            j <= sorted@.len(),
            sv == labels_view(sorted@),
            r@ == concat_snds(sv.subrange(0, j as int)),
        decreases sorted@.len() - j,
    {
        r.append(sorted[j].1.as_str());
        j = j + 1;
        proof {
            assert(sv[j - 1] == (sorted@[j - 1].0@, sorted@[j - 1].1@));
            assert(sv.subrange(0, j as int).drop_last() =~= sv.subrange(0, j - 1));
            assert(sv.subrange(0, j as int).last() == sv[j - 1]);
        }
    }
    proof {
        assert(sv.subrange(0, sv.len() as int) =~= sv);
    }
    r
}

} // verus!
