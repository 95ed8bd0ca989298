//! Pieces of the interactive HTML report that are plain text assembly.
use vstd::prelude::*;
use vstd::string::*;

verus! {

/// The JSON text of one scatter trace (lines+markers, hover shows single points;
/// drawdown-like series are filled down to zero).
pub open spec fn spec_trace(
    name: Seq<char>,
    x: Seq<char>,
    y: Seq<char>,
    xaxis: Seq<char>,
    yaxis: Seq<char>,
    fill: bool,
) -> Seq<char> {
    "{\"type\":\"scatter\",\"mode\":\"lines+markers\",\"name\":\""@ + name + "\",\"x\":"@ + x
        + ",\"y\":"@ + y + (if fill {
        ",\"fill\":\"tozeroy\""@
    } else {
        Seq::empty()
    }) + ",\"xaxis\":\""@ + xaxis + "\",\"yaxis\":\""@ + yaxis + "\"}"@
}

/// Appends the JSON object of one scatter trace to `out`.
pub fn push_trace(out: &mut String, name: &str, x: &str, y: &str, xaxis: &str, yaxis: &str, fill: bool)
    ensures
        final(out)@ == old(out)@ + spec_trace(name@, x@, y@, xaxis@, yaxis@, fill),
{
    out.append("{\"type\":\"scatter\",\"mode\":\"lines+markers\",\"name\":\"");
    out.append(name);
    out.append("\",\"x\":");
    out.append(x);
    out.append(",\"y\":");
    out.append(y);
    if fill {
        out.append(",\"fill\":\"tozeroy\"");
    }
    out.append(",\"xaxis\":\"");
    out.append(xaxis);
    out.append("\",\"yaxis\":\"");
    out.append(yaxis);
    out.append("\"}");
    assert(final(out)@ =~= old(out)@ + spec_trace(name@, x@, y@, xaxis@, yaxis@, fill));
}

/// The plot's ten traces in drawing order: name, panel (0..=6, top to bottom) and
/// whether the series is a drawdown filled down to zero.
pub open spec fn trace_name(i: int) -> Seq<char> {
    if i == 0 {
        "cum bench"@
    } else if i == 1 {
        "cum return wo cost"@
    } else if i == 2 {
        "cum return w cost"@
    } else if i == 3 {
        "return wo mdd"@
    } else if i == 4 {
        "return w cost mdd"@
    } else if i == 5 {
        "cum ex return wo cost"@
    } else if i == 6 {
        "cum ex return w cost"@
    } else if i == 7 {
        "turnover"@
    } else if i == 8 {
        "cum ex return w cost mdd"@
    } else {
        "cum ex return wo cost mdd"@
    }
}

/// The panel of trace `i`: three return curves share the top panel, the two
/// cumulative excess curves share the fourth.
pub open spec fn trace_panel(i: int) -> int {
    if i <= 2 {
        0
    } else if i <= 4 {
        i - 2
    } else if i <= 6 {
        3
    } else {
        i - 3
    }
}

/// Drawdown traces are filled.
pub open spec fn trace_filled(i: int) -> bool {
    i == 3 || i == 4 || i == 8 || i == 9
}

/// The x axis of a panel: `x` for the top one, then `x2` .. `x7`.
pub open spec fn x_axis(panel: int) -> Seq<char> {
    if panel == 0 {
        "x"@
    } else if panel == 1 {
        "x2"@
    } else if panel == 2 {
        "x3"@
    } else if panel == 3 {
        "x4"@
    } else if panel == 4 {
        "x5"@
    } else if panel == 5 {
        "x6"@
    } else {
        "x7"@
    }
}

/// The y axis of a panel: `y` for the top one, then `y2` .. `y7`.
pub open spec fn y_axis(panel: int) -> Seq<char> {
    if panel == 0 {
        "y"@
    } else if panel == 1 {
        "y2"@
    } else if panel == 2 {
        "y3"@
    } else if panel == 3 {
        "y4"@
    } else if panel == 4 {
        "y5"@
    } else if panel == 5 {
        "y6"@
    } else {
        "y7"@
    }
}

/// The JSON of the first `n` traces, separated by commas, over the shared date
/// axis `x` and the series texts `ys`.
pub open spec fn traces_upto(x: Seq<char>, ys: Seq<Seq<char>>, n: int) -> Seq<char>
    decreases n,
{
    if n <= 0 {
        Seq::empty()
    } else {
        let i = n - 1;
        traces_upto(x, ys, i) + (if i > 0 {
            ","@
        } else {
            Seq::empty()
        }) + spec_trace(
            trace_name(i),
            x,
            ys[i],
            x_axis(trace_panel(i)),
            y_axis(trace_panel(i)),
            trace_filled(i),
        )
    }
}

/// The JSON array of all ten traces.
pub open spec fn spec_report_traces(x: Seq<char>, ys: Seq<Seq<char>>) -> Seq<char> {
    "["@ + traces_upto(x, ys, 10) + "]"@
}

/// Name, axes and fill of trace `i`.
fn trace_meta(i: usize) -> (r: (&'static str, &'static str, &'static str, bool))
    requires
        i < 10,
    ensures
        r.0@ == trace_name(i as int),
        r.1@ == x_axis(trace_panel(i as int)),
        r.2@ == y_axis(trace_panel(i as int)),
        r.3 == trace_filled(i as int),
{
    if i == 0 {
        ("cum bench", "x", "y", false)
    } else if i == 1 {
        ("cum return wo cost", "x", "y", false)
    } else if i == 2 {
        ("cum return w cost", "x", "y", false)
    } else if i == 3 {
        ("return wo mdd", "x2", "y2", true)
    } else if i == 4 {
        ("return w cost mdd", "x3", "y3", true)
    } else if i == 5 {
        ("cum ex return wo cost", "x4", "y4", false)
    } else if i == 6 {
        ("cum ex return w cost", "x4", "y4", false)
    } else if i == 7 {
        ("turnover", "x5", "y5", false)
    } else if i == 8 {
        ("cum ex return w cost mdd", "x6", "y6", true)
    } else {
        ("cum ex return wo cost mdd", "x7", "y7", true)
    }
}

/// The JSON array of the plot's ten traces, given the date axis `x` and the ten
/// series in drawing order (see `trace_name`), each already a JSON array.
pub fn report_traces(x: &str, ys: &Vec<String>) -> (r: String)
    requires
        ys@.len() == 10,
    ensures
        r@ == spec_report_traces(x@, ys@.map_values(|s: String| s@)),
{
    let ghost yv = ys@.map_values(|s: String| s@);
    let mut out = String::from_str("[");
    let mut i: usize = 0;
    while i < 10
        invariant
            i <= 10,
            ys@.len() == 10,
            yv == ys@.map_values(|s: String| s@),
            out@ == "["@ + traces_upto(x@, yv, i as int),
        decreases 10 - i,
    {
        let ghost before = out@;
        if i > 0 {
            out.append(",");
        }
        let (name, xa, ya, fill) = trace_meta(i);
        assert(yv[i as int] == ys@[i as int]@);
        push_trace(&mut out, name, x, ys[i].as_str(), xa, ya, fill);
        proof {
            let sep: Seq<char> = if i > 0 { ","@ } else { Seq::empty() };
            let tr = spec_trace(
                trace_name(i as int),
                x@,
                yv[i as int],
                x_axis(trace_panel(i as int)),
                y_axis(trace_panel(i as int)),
                trace_filled(i as int),
            );
            assert(out@ == before + sep + tr);
            assert(traces_upto(x@, yv, i + 1) == traces_upto(x@, yv, i as int) + sep + tr);
            assert(out@ =~= "["@ + traces_upto(x@, yv, i + 1));
        }
        i += 1;
    }
    out.append("]");
    out
}

proof fn lemma_bracketed_first(x: Seq<char>, ys: Seq<Seq<char>>)
    ensures
        "["@ + traces_upto(x, ys, 1) == "["@ + spec_trace("cum bench"@, x, ys[0], "x"@, "y"@, false),
{
    let t = spec_trace(trace_name(0), x, ys[0], x_axis(trace_panel(0)), y_axis(trace_panel(0)), trace_filled(0));
    assert(traces_upto(x, ys, 0) =~= Seq::<char>::empty());
    assert(traces_upto(x, ys, 1) =~= t);
}

proof fn lemma_bracketed_step(x: Seq<char>, ys: Seq<Seq<char>>, i: int)
    requires
        1 <= i,
    ensures
        "["@ + traces_upto(x, ys, i + 1) == ("["@ + traces_upto(x, ys, i)) + ","@ + spec_trace(
            trace_name(i),
            x,
            ys[i],
            x_axis(trace_panel(i)),
            y_axis(trace_panel(i)),
            trace_filled(i),
        ),
{
    let a = traces_upto(x, ys, i);
    let t = spec_trace(trace_name(i), x, ys[i], x_axis(trace_panel(i)), y_axis(trace_panel(i)), trace_filled(i));
    assert(traces_upto(x, ys, i + 1) == a + ","@ + t);
    assert("["@ + (a + ","@ + t) =~= ("["@ + a) + ","@ + t);
}

/// The plot draws, over the shared date axis `x`, series `ys[0]` .. `ys[9]` in
/// this order and under these names: the benchmark and the cumulative returns
/// without and with cost on the top panel; the drawdowns without and with cost
/// (filled) on panels 2 and 3; the cumulative excess returns without and with
/// cost on panel 4; the turnover on panel 5; the excess drawdowns with and
/// without cost (filled) on panels 6 and 7.
pub proof fn law_report_traces_layout(x: Seq<char>, ys: Seq<Seq<char>>)
    ensures
        spec_report_traces(x, ys) == "["@
            + spec_trace("cum bench"@, x, ys[0], "x"@, "y"@, false) + ","@
            + spec_trace("cum return wo cost"@, x, ys[1], "x"@, "y"@, false) + ","@
            + spec_trace("cum return w cost"@, x, ys[2], "x"@, "y"@, false) + ","@
            + spec_trace("return wo mdd"@, x, ys[3], "x2"@, "y2"@, true) + ","@
            + spec_trace("return w cost mdd"@, x, ys[4], "x3"@, "y3"@, true) + ","@
            + spec_trace("cum ex return wo cost"@, x, ys[5], "x4"@, "y4"@, false) + ","@
            + spec_trace("cum ex return w cost"@, x, ys[6], "x4"@, "y4"@, false) + ","@
            + spec_trace("turnover"@, x, ys[7], "x5"@, "y5"@, false) + ","@
            + spec_trace("cum ex return w cost mdd"@, x, ys[8], "x6"@, "y6"@, true) + ","@
            + spec_trace("cum ex return wo cost mdd"@, x, ys[9], "x7"@, "y7"@, true) + "]"@,
{
    let t0 = spec_trace("cum bench"@, x, ys[0], "x"@, "y"@, false);
    lemma_bracketed_first(x, ys);
    let p1: Seq<char> = "["@ + t0;
    let t1 = spec_trace("cum return wo cost"@, x, ys[1], "x"@, "y"@, false);
    lemma_bracketed_step(x, ys, 1);
    assert(trace_name(1) == "cum return wo cost"@ && x_axis(trace_panel(1)) == "x"@ && y_axis(trace_panel(1)) == "y"@ && trace_filled(1) == false);
    let p2: Seq<char> = p1 + ","@ + t1;
    assert("["@ + traces_upto(x, ys, 2) == p2);
    let t2 = spec_trace("cum return w cost"@, x, ys[2], "x"@, "y"@, false);
    lemma_bracketed_step(x, ys, 2);
    assert(trace_name(2) == "cum return w cost"@ && x_axis(trace_panel(2)) == "x"@ && y_axis(trace_panel(2)) == "y"@ && trace_filled(2) == false);
    let p3: Seq<char> = p2 + ","@ + t2;
    assert("["@ + traces_upto(x, ys, 3) == p3);
    let t3 = spec_trace("return wo mdd"@, x, ys[3], "x2"@, "y2"@, true);
    lemma_bracketed_step(x, ys, 3);
    assert(trace_name(3) == "return wo mdd"@ && x_axis(trace_panel(3)) == "x2"@ && y_axis(trace_panel(3)) == "y2"@ && trace_filled(3) == true);
    let p4: Seq<char> = p3 + ","@ + t3;
    assert("["@ + traces_upto(x, ys, 4) == p4);
    let t4 = spec_trace("return w cost mdd"@, x, ys[4], "x3"@, "y3"@, true);
    lemma_bracketed_step(x, ys, 4);
    assert(trace_name(4) == "return w cost mdd"@ && x_axis(trace_panel(4)) == "x3"@ && y_axis(trace_panel(4)) == "y3"@ && trace_filled(4) == true);
    let p5: Seq<char> = p4 + ","@ + t4;
    assert("["@ + traces_upto(x, ys, 5) == p5);
    let t5 = spec_trace("cum ex return wo cost"@, x, ys[5], "x4"@, "y4"@, false);
    lemma_bracketed_step(x, ys, 5);
    assert(trace_name(5) == "cum ex return wo cost"@ && x_axis(trace_panel(5)) == "x4"@ && y_axis(trace_panel(5)) == "y4"@ && trace_filled(5) == false);
    let p6: Seq<char> = p5 + ","@ + t5;
    assert("["@ + traces_upto(x, ys, 6) == p6);
    let t6 = spec_trace("cum ex return w cost"@, x, ys[6], "x4"@, "y4"@, false);
    lemma_bracketed_step(x, ys, 6);
    assert(trace_name(6) == "cum ex return w cost"@ && x_axis(trace_panel(6)) == "x4"@ && y_axis(trace_panel(6)) == "y4"@ && trace_filled(6) == false);
    let p7: Seq<char> = p6 + ","@ + t6;
    assert("["@ + traces_upto(x, ys, 7) == p7);
    let t7 = spec_trace("turnover"@, x, ys[7], "x5"@, "y5"@, false);
    lemma_bracketed_step(x, ys, 7);
    assert(trace_name(7) == "turnover"@ && x_axis(trace_panel(7)) == "x5"@ && y_axis(trace_panel(7)) == "y5"@ && trace_filled(7) == false);
    let p8: Seq<char> = p7 + ","@ + t7;
    assert("["@ + traces_upto(x, ys, 8) == p8);
    let t8 = spec_trace("cum ex return w cost mdd"@, x, ys[8], "x6"@, "y6"@, true);
    lemma_bracketed_step(x, ys, 8);
    assert(trace_name(8) == "cum ex return w cost mdd"@ && x_axis(trace_panel(8)) == "x6"@ && y_axis(trace_panel(8)) == "y6"@ && trace_filled(8) == true);
    let p9: Seq<char> = p8 + ","@ + t8;
    assert("["@ + traces_upto(x, ys, 9) == p9);
    let t9 = spec_trace("cum ex return wo cost mdd"@, x, ys[9], "x7"@, "y7"@, true);
    lemma_bracketed_step(x, ys, 9);
    assert(trace_name(9) == "cum ex return wo cost mdd"@ && x_axis(trace_panel(9)) == "x7"@ && y_axis(trace_panel(9)) == "y7"@ && trace_filled(9) == true);
    let p10: Seq<char> = p9 + ","@ + t9;
    assert("["@ + traces_upto(x, ys, 10) == p10);
    assert(spec_report_traces(x, ys) == p10 + "]"@);
}

} // verus!
