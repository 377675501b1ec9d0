//! `/mareas`: the day's tides at the port, as the tide service reports them.
use crate::telegram::Message;
use crate::text::{starts_with, str_eq};
use vstd::prelude::*;
use vstd::string::*;

verus! {

/// The address of the tide service.
pub const TIDES_URL: &'static str = "https://ideihm.covam.es/api-ihm/getmarea?request=gettide&id=4&format=json";

pub struct Reply {
    pub mareas: Mareas,
}

pub struct Mareas {
    pub datos: Datos,
    pub fecha: String,
    pub puerto: String,
}

pub struct Datos {
    pub marea: Vec<Dato>,
}

/// One high or low tide: its height, its time and its kind (`pleamar` or
/// `bajamar`).
pub struct Dato {
    pub altura: String,
    pub hora: String,
    pub tipo: String,
}

/// The arrow of a tide: up for high tide, down otherwise.
pub open spec fn tide_icon(tipo: Seq<char>) -> Seq<char> {
    if tipo == "pleamar"@ {
        "↗"@
    } else {
        "↘"@
    }
}

/// The line of one tide.
pub open spec fn tide_line(d: Dato) -> Seq<char> {
    "          "@ + tide_icon(d.tipo@) + "  "@ + d.hora@ + "  "@ + d.tipo@ + "  ("@ + d.altura@ + " m)\n"@
}

/// The lines of the first `n` tides.
pub open spec fn tide_lines(datos: Seq<Dato>, n: nat) -> Seq<char>
    decreases n,
{
    if n == 0 {
        Seq::empty()
    } else {
        tide_lines(datos, (n - 1) as nat) + tide_line(datos[n - 1])
    }
}

/// The report of a reply of the tide service.
pub open spec fn tides_report(reply: Reply) -> Seq<char> {
    "🌊  Mareas del "@ + reply.mareas.fecha@ + " en "@ + reply.mareas.puerto@ + "  🌊\n\n"@
        + tide_lines(reply.mareas.datos.marea@, reply.mareas.datos.marea@.len())
}

/// The title of a report: the date and the port of the reply.
pub open spec fn tides_title(fecha: Seq<char>, puerto: Seq<char>) -> Seq<char> {
    "🌊  Mareas del "@ + fecha + " en "@ + puerto + "  🌊\n\n"@
}

/// A report of a reply without tides is its title alone; a reply with one
/// more tide gets one more line at the end, that tide's line.  So, tide by
/// tide, the report lists every tide of the reply in order, one line each.
pub proof fn law_one_line_per_tide(reply: Reply, longer: Reply, d: Dato)
    requires
        longer.mareas.fecha == reply.mareas.fecha,
        longer.mareas.puerto == reply.mareas.puerto,
        longer.mareas.datos.marea@ == reply.mareas.datos.marea@.push(d),
    ensures
        reply.mareas.datos.marea@.len() == 0 ==> tides_report(reply) == tides_title(
            reply.mareas.fecha@,
            reply.mareas.puerto@,
        ),
        tides_report(longer) == tides_report(reply) + "          "@ + (if d.tipo@ == "pleamar"@ {
            "↗"@
        } else {
            "↘"@
        }) + "  "@ + d.hora@ + "  "@ + d.tipo@ + "  ("@ + d.altura@ + " m)\n"@,
{
    let m = reply.mareas.datos.marea@;
    let ml = longer.mareas.datos.marea@;
    assert(ml.len() == m.len() + 1);
    assert forall|k: int| 0 <= k <= m.len() implies #[trigger] tide_lines(ml, k as nat) == tide_lines(m, k as nat) by {
        lemma_tide_lines_prefix(m, ml, k as nat);
    }
    assert(ml[m.len() as int] == d);
    assert(tide_lines(ml, ml.len()) == tide_lines(ml, m.len()) + tide_line(d));
    let title = "🌊  Mareas del "@ + reply.mareas.fecha@ + " en "@ + reply.mareas.puerto@ + "  🌊\n\n"@;
    assert(tides_report(longer) =~= title + tide_lines(m, m.len()) + tide_line(d));
    assert(tides_report(longer) =~= tides_report(reply) + "          "@ + (if d.tipo@ == "pleamar"@ {
        "↗"@
    } else {
        "↘"@
    }) + "  "@ + d.hora@ + "  "@ + d.tipo@ + "  ("@ + d.altura@ + " m)\n"@);
}

proof fn lemma_tide_lines_prefix(m: Seq<Dato>, ml: Seq<Dato>, k: nat)
    requires
        k <= m.len(),
        k <= ml.len(),
        forall|i: int| 0 <= i < k ==> ml[i] == m[i],
    ensures
        tide_lines(ml, k) == tide_lines(m, k),
    decreases k,
{
    if k > 0 {
        lemma_tide_lines_prefix(m, ml, (k - 1) as nat);
    }
}

/// The tide command.  Fetching the tides is left to the caller, who sends
/// `TIDES_URL` a request and hands the decoded reply to `report`.
pub struct TidesCommand {}

impl TidesCommand {
    pub fn new() -> (cmd: TidesCommand) {
        TidesCommand {}
    }

    /// Whether the message is the `/mareas` command.
    pub fn applies(&self, msg: &Message) -> (r: bool)
        ensures
            r == "/mareas"@.is_prefix_of(msg.text@),
    {
        starts_with(msg.text.as_str(), "/mareas")
    }

    /// The text that answers the command: a title with the date and the
    /// port, then one line per tide.
    pub fn report(&self, reply: &Reply) -> (text: String)
        ensures
            text@ == tides_report(*reply),
    {
        let mut text = String::new();
        text.append("🌊  Mareas del ");
        text.append(reply.mareas.fecha.as_str());
        text.append(" en ");
        text.append(reply.mareas.puerto.as_str());
        text.append("  🌊\n\n");
        let ghost title = text@;
        let datos = &reply.mareas.datos.marea;
        let mut i: usize = 0;
        while i < datos.len()
            invariant
                i <= datos@.len(),
                text@ == title + tide_lines(datos@, i as nat),
            decreases datos@.len() - i,
        {
            let dato = &datos[i];
            let icon = if str_eq(dato.tipo.as_str(), "pleamar") {
                "↗"
            } else {
                "↘"
            };
            text.append("          ");
            text.append(icon);
            text.append("  ");
            text.append(dato.hora.as_str());
            text.append("  ");
            text.append(dato.tipo.as_str());
            text.append("  (");
            text.append(dato.altura.as_str());
            text.append(" m)\n");
            i = i + 1;
            assert(text@ =~= title + tide_lines(datos@, i as nat));
        }
        text
    }
}

} // verus!
