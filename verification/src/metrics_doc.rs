//! The JSON document the HTTP server answers `/metrics` with, and the
//! address read from the output of `ip -4 addr show`.
//!
//! Figures the system reports as fractions arrive already formatted as text;
//! the document's structure, and every integer in it, is built here.
use vstd::prelude::*;
use crate::http::{line_vecs, text_lines};
use crate::interfaces::InterfaceSample;
use crate::text::{
    chars_of, contains, decimal, decode_lossy, find_chars, lossy_utf8, lemma_split_on_nonempty, push_decimal, push_str,
    second_word, second_word_bounds, split_bounds, split_on, string_of, sub_vec,
};

verus! {

/// The network part of the document.
pub struct NetworkReport {
    pub interface: String,
    pub ip: Option<String>,
    /// Received and transmitted rate histories, when the history could be read.
    pub history: Option<(Vec<u64>, Vec<u64>)>,
    pub rx_bytes: u64,
    pub tx_bytes: u64,
}

/// One mounted disk, its figures already formatted.
pub struct DiskReport {
    pub mount: String,
    pub fs: String,
    pub used_gb: String,
    pub total_gb: String,
    pub percent: String,
}

/// Everything the document reports.
pub struct MetricsReport {
    pub hostname: Option<String>,
    pub network: Option<NetworkReport>,
    pub cpu_cores: Vec<String>,
    pub cpu_total: String,
    pub load_avg: String,
    pub ram_used_gb: String,
    pub ram_total_gb: String,
    pub ram_percent: String,
    pub swap_used_gb: String,
    pub swap_total_gb: String,
    pub swap_percent: String,
    pub disks: Vec<DiskReport>,
}

/// `items` separated by commas.
pub open spec fn join_commas(items: Seq<Seq<char>>) -> Seq<char>
    decreases items.len(),
{
    if items.len() == 0 {
        Seq::empty()
    } else if items.len() == 1 {
        items[0]
    } else {
        join_commas(items.drop_last()) + ","@ + items.last()
    }
}

/// The decimal forms of `xs`.
pub open spec fn decimals(xs: Seq<u64>) -> Seq<Seq<char>> {
    xs.map_values(|x: u64| decimal(x as nat))
}

/// The texts of `xs`.
pub open spec fn texts(xs: Seq<String>) -> Seq<Seq<char>> {
    xs.map_values(|x: String| x@)
}

/// The JSON object describing disk `d`.
pub open spec fn disk_json(d: DiskReport) -> Seq<char> {
    "{\"mount\":\""@ + d.mount@ + "\",\"fs\":\""@ + d.fs@ + "\",\"used_gb\":"@ + d.used_gb@
        + ",\"total_gb\":"@ + d.total_gb@ + ",\"percent\":"@ + d.percent@ + "}"@
}

/// The members describing network `n`.
pub open spec fn network_json(n: NetworkReport) -> Seq<char> {
    "\"interface\":\""@ + n.interface@ + "\","@ + (match n.ip {
        Some(ip) => "\"ip\":\""@ + ip@ + "\","@,
        None => Seq::empty(),
    }) + (match n.history {
        Some(h) => "\"net_rx_history\":["@ + join_commas(decimals(h.0@)) + "],"@
            + "\"net_tx_history\":["@ + join_commas(decimals(h.1@)) + "],"@,
        None => Seq::empty(),
    }) + "\"net_rx_bytes\":"@ + decimal(n.rx_bytes as nat) + ","@ + "\"net_tx_bytes\":"@
        + decimal(n.tx_bytes as nat) + ","@
}

/// The metrics document for `r`.
pub open spec fn metrics_json(r: MetricsReport) -> Seq<char> {
    "{"@ + (match r.hostname {
        Some(h) => "\"hostname\":\""@ + h@ + "\","@,
        None => Seq::empty(),
    }) + (match r.network {
        Some(n) => network_json(n),
        None => Seq::empty(),
    }) + "\"cpu_cores\":["@ + join_commas(texts(r.cpu_cores@)) + "],"@ + "\"cpu_total\":"@
        + r.cpu_total@ + ","@ + "\"load_avg\":\""@ + r.load_avg@ + "\","@ + "\"ram_used_gb\":"@
        + r.ram_used_gb@ + ","@ + "\"ram_total_gb\":"@ + r.ram_total_gb@ + ","@
        + "\"ram_percent\":"@ + r.ram_percent@ + ","@ + "\"swap_used_gb\":"@ + r.swap_used_gb@
        + ","@ + "\"swap_total_gb\":"@ + r.swap_total_gb@ + ","@ + "\"swap_percent\":"@
        + r.swap_percent@ + ","@ + "\"disks\":["@ + join_commas(
        r.disks@.map_values(|d: DiskReport| disk_json(d)),
    ) + "],"@ + "\"status\":\"ok\"}"@
}

proof fn lemma_join_step(items: Seq<Seq<char>>, k: int)
    requires
        0 <= k < items.len(),
    ensures
        join_commas(items.take(k + 1)) == (if k == 0 {
            items[0]
        } else {
            join_commas(items.take(k)) + ","@ + items[k]
        }),
{
    let t = items.take(k + 1);
    assert(t.drop_last() =~= items.take(k));
    if k == 0 {
        assert(t.len() == 1);
    }
}

/// Appends the decimal forms of `xs`, separated by commas.
pub fn push_joined_decimals(out: &mut String, xs: &Vec<u64>)
    ensures
        final(out)@ == old(out)@ + join_commas(decimals(xs@)),
{
    let ghost items = decimals(xs@);
    let mut k: usize = 0;
    assert(items.take(0) =~= Seq::<Seq<char>>::empty());
    while k < xs.len()
        invariant
            k <= xs@.len(),
            items == decimals(xs@),
            out@ == old(out)@ + join_commas(items.take(k as int)),
        decreases xs.len() - k,
    {
        proof {
            lemma_join_step(items, k as int);
        }
        if k > 0 {
            push_str(out, ",");
        }
        push_decimal(out, xs[k]);
        assert(items[k as int] == decimal(xs@[k as int] as nat));
        k = k + 1;
    }
    assert(items.take(xs@.len() as int) =~= items);
}

/// Appends the texts `xs`, separated by commas.
pub fn push_joined(out: &mut String, xs: &Vec<String>)
    ensures
        final(out)@ == old(out)@ + join_commas(texts(xs@)),
{
    let ghost items = texts(xs@);
    let mut k: usize = 0;
    assert(items.take(0) =~= Seq::<Seq<char>>::empty());
    while k < xs.len()
        invariant
            k <= xs@.len(),
            items == texts(xs@),
            out@ == old(out)@ + join_commas(items.take(k as int)),
        decreases xs.len() - k,
    {
        proof {
            lemma_join_step(items, k as int);
        }
        if k > 0 {
            push_str(out, ",");
        }
        push_str(out, xs[k].as_str());
        k = k + 1;
    }
    assert(items.take(xs@.len() as int) =~= items);
}

fn push_disk(out: &mut String, d: &DiskReport)
    ensures
        final(out)@ == old(out)@ + disk_json(*d),
{
    push_str(out, "{\"mount\":\"");
    push_str(out, d.mount.as_str());
    push_str(out, "\",\"fs\":\"");
    push_str(out, d.fs.as_str());
    push_str(out, "\",\"used_gb\":");
    push_str(out, d.used_gb.as_str());
    push_str(out, ",\"total_gb\":");
    push_str(out, d.total_gb.as_str());
    push_str(out, ",\"percent\":");
    push_str(out, d.percent.as_str());
    push_str(out, "}");
}

fn push_disks(out: &mut String, disks: &Vec<DiskReport>)
    ensures
        final(out)@ == old(out)@ + join_commas(disks@.map_values(|d: DiskReport| disk_json(d))),
{
    let ghost items = disks@.map_values(|d: DiskReport| disk_json(d));
    let mut k: usize = 0;
    assert(items.take(0) =~= Seq::<Seq<char>>::empty());
    while k < disks.len()
        invariant
            k <= disks@.len(),
            items == disks@.map_values(|d: DiskReport| disk_json(d)),
            out@ == old(out)@ + join_commas(items.take(k as int)),
        decreases disks.len() - k,
    {
        proof {
            lemma_join_step(items, k as int);
        }
        if k > 0 {
            push_str(out, ",");
        }
        push_disk(out, &disks[k]);
        k = k + 1;
    }
    assert(items.take(disks@.len() as int) =~= items);
}

fn push_network(out: &mut String, n: &NetworkReport)
    ensures
        final(out)@ == old(out)@ + network_json(*n),
{
    let ghost start = out@;
    push_str(out, "\"interface\":\"");
    push_str(out, n.interface.as_str());
    push_str(out, "\",");
    let ghost after_iface = out@;
    match &n.ip {
        Some(ip) => {
            push_str(out, "\"ip\":\"");
            push_str(out, ip.as_str());
            push_str(out, "\",");
        },
        None => {},
    }
    let ghost ip_part = match &n.ip {
        Some(ip) => "\"ip\":\""@ + ip@ + "\","@,
        None => Seq::<char>::empty(),
    };
    assert(out@ =~= after_iface + ip_part);
    let ghost after_ip = out@;
    match &n.history {
        Some(h) => {
            push_str(out, "\"net_rx_history\":[");
            push_joined_decimals(out, &h.0);
            push_str(out, "],");
            push_str(out, "\"net_tx_history\":[");
            push_joined_decimals(out, &h.1);
            push_str(out, "],");
        },
        None => {},
    }
    let ghost hist_part = match &n.history {
        Some(h) => "\"net_rx_history\":["@ + join_commas(decimals(h.0@)) + "],"@
            + "\"net_tx_history\":["@ + join_commas(decimals(h.1@)) + "],"@,
        None => Seq::<char>::empty(),
    };
    assert(out@ =~= after_ip + hist_part);
    let ghost after_hist = out@;
    push_str(out, "\"net_rx_bytes\":");
    push_decimal(out, n.rx_bytes);
    push_str(out, ",");
    push_str(out, "\"net_tx_bytes\":");
    push_decimal(out, n.tx_bytes);
    push_str(out, ",");
    assert(out@ =~= start + network_json(*n));
}

/// The metrics document for `r`, members in the order the dashboard reads them.
pub fn metrics_json_text(r: &MetricsReport) -> (s: String)
    ensures
        s@ == metrics_json(*r),
{
    let mut out = String::new();
    push_str(&mut out, "{");
    match &r.hostname {
        Some(h) => {
            push_str(&mut out, "\"hostname\":\"");
            push_str(&mut out, h.as_str());
            push_str(&mut out, "\",");
        },
        None => {},
    }
    let ghost host_part = match &r.hostname {
        Some(h) => "\"hostname\":\""@ + h@ + "\","@,
        None => Seq::<char>::empty(),
    };
    assert(out@ =~= "{"@ + host_part);
    let ghost after_host = out@;
    match &r.network {
        Some(n) => {
            push_network(&mut out, n);
        },
        None => {},
    }
    let ghost net_part = match &r.network {
        Some(n) => network_json(*n),
        None => Seq::<char>::empty(),
    };
    assert(out@ =~= after_host + net_part);
    let ghost after_net = out@;
    push_str(&mut out, "\"cpu_cores\":[");
    push_joined(&mut out, &r.cpu_cores);
    push_str(&mut out, "],");
    push_str(&mut out, "\"cpu_total\":");
    push_str(&mut out, r.cpu_total.as_str());
    push_str(&mut out, ",");
    push_str(&mut out, "\"load_avg\":\"");
    push_str(&mut out, r.load_avg.as_str());
    push_str(&mut out, "\",");
    push_str(&mut out, "\"ram_used_gb\":");
    push_str(&mut out, r.ram_used_gb.as_str());
    push_str(&mut out, ",");
    push_str(&mut out, "\"ram_total_gb\":");
    push_str(&mut out, r.ram_total_gb.as_str());
    push_str(&mut out, ",");
    push_str(&mut out, "\"ram_percent\":");
    push_str(&mut out, r.ram_percent.as_str());
    push_str(&mut out, ",");
    push_str(&mut out, "\"swap_used_gb\":");
    push_str(&mut out, r.swap_used_gb.as_str());
    push_str(&mut out, ",");
    push_str(&mut out, "\"swap_total_gb\":");
    push_str(&mut out, r.swap_total_gb.as_str());
    push_str(&mut out, ",");
    push_str(&mut out, "\"swap_percent\":");
    push_str(&mut out, r.swap_percent.as_str());
    push_str(&mut out, ",");
    push_str(&mut out, "\"disks\":[");
    push_disks(&mut out, &r.disks);
    push_str(&mut out, "],");
    push_str(&mut out, "\"status\":\"ok\"}");
    assert(out@ =~= metrics_json(*r));
    out
}

/// The address on the first line of `lines` that mentions `inet ` and has a
/// second word: that word up to its first `/`.
pub open spec fn inet_address_in(lines: Seq<Seq<char>>) -> Option<Seq<char>>
    decreases lines.len(),
{
    if lines.len() == 0 {
        None
    } else if contains(lines[0], "inet "@) && second_word(lines[0]) is Some {
        Some(split_on(second_word(lines[0])->0, '/')[0])
    } else {
        inet_address_in(lines.drop_first())
    }
}

/// The IPv4 address that the output of `ip -4 addr show` lists first.
pub open spec fn inet_address(output: Seq<char>) -> Option<Seq<char>> {
    inet_address_in(text_lines(output))
}

/// The IPv4 address that the output of `ip -4 addr show` lists first, `None`
/// where it lists none.
pub fn parse_inet_address(output: &str) -> (r: Option<String>)
    ensures
        r is None ==> inet_address(output@) is None,
        r matches Some(a) ==> inet_address(output@) == Some(a@),
{
    let lines = line_vecs(output);
    let ghost ls = text_lines(output@);
    let needle = chars_of("inet ");
    let mut k: usize = 0;
    assert(ls.skip(0) =~= ls);
    while k < lines.len()
        invariant
            k <= lines@.len() == ls.len(),
            ls == text_lines(output@),
            needle@ == "inet "@,
            forall|j: int| 0 <= j < lines@.len() ==> #[trigger] lines@[j]@ == ls[j],
            inet_address_in(ls) == inet_address_in(ls.skip(k as int)),
        decreases lines.len() - k,
    {
        let line = &lines[k];
        assert(ls.skip(k as int)[0] == ls[k as int]);
        assert(ls.skip(k as int).drop_first() =~= ls.skip(k + 1));
        let found = find_chars(line, &needle, 0);
        if found.is_some() {
            match second_word_bounds(line) {
                Some((a, e)) => {
                    let word = sub_vec(line, a, e);
                    let pieces = split_bounds(&word, '/');
                    proof {
                        lemma_split_on_nonempty(word@, '/');
                    }
                    let (p0, p1) = pieces[0];
                    return Some(string_of(&word, p0, p1));
                },
                None => {},
            }
        }
        k = k + 1;
    }
    assert(ls.skip(lines@.len() as int) =~= Seq::<Seq<char>>::empty());
    None
}

/// The network part for interface `sample`, its address read from what
/// `ip -4 addr show` printed (lossy UTF-8) where that command ran, and its
/// rate histories where they could be read.
pub fn network_report(
    sample: &InterfaceSample,
    ip_output: Option<&[u8]>,
    history: Option<(Vec<u64>, Vec<u64>)>,
) -> (r: NetworkReport)
    ensures
        r.interface@ == sample.name@,
        r.rx_bytes == sample.received_total,
        r.tx_bytes == sample.transmitted_total,
        r.history == history,
        match ip_output {
            Some(out) => match inet_address(lossy_utf8(out@)) {
                Some(a) => r.ip matches Some(ip) && ip@ == a,
                None => r.ip is None,
            },
            None => r.ip is None,
        },
{
    let ip = match ip_output {
        Some(out) => {
            let text = decode_lossy(out);
            parse_inet_address(text.as_str())
        },
        None => None,
    };
    NetworkReport {
        interface: sample.name.clone(),
        ip,
        history,
        rx_bytes: sample.received_total,
        tx_bytes: sample.transmitted_total,
    }
}

} // verus!
