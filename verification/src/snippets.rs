//! Snippets: the curated defaults seeded the first time a platform is
//! seen, and the rules of macro export and import.
use vstd::prelude::*;
use crate::model::{opt_str, AppError, ExportedMacro, MacroExportFile, MacroImportSummary};
use crate::text::{owned, push_str};

verus! {

/// The curated default snippets of a platform, as `(name, content)`.
pub open spec fn default_snippets(platform: Seq<char>) -> Seq<(Seq<char>, Seq<char>)> {
    if platform == "linux"@ {
        seq![("ls -la"@, "ls -la\n"@), ("df -h"@, "df -h\n"@), ("free -h"@, "free -h\n"@), ("ps aux | grep "@, "ps aux | grep \n"@), ("systemctl status "@, "systemctl status \n"@), ("journalctl -xe"@, "journalctl -xe\n"@)]
    } else if platform == "cisco_ios"@ {
        seq![("show ip int brief"@, "show ip int brief\n"@), ("show ip route"@, "show ip route\n"@), ("show interfaces status"@, "show interfaces status\n"@), ("show running-config"@, "show running-config\n"@), ("clear counters"@, "clear counters\n"@), ("wr mem"@, "wr mem\n"@)]
    } else if platform == "juniper"@ {
        seq![("show interfaces terse"@, "show interfaces terse\n"@), ("show route"@, "show route\n"@), ("show bgp summary"@, "show bgp summary\n"@), ("show chassis hardware"@, "show chassis hardware\n"@), ("commit confirmed"@, "commit confirmed\n"@)]
    } else if platform == "mikrotik"@ {
        seq![("/interface print"@, "/interface print\n"@), ("/ip address print"@, "/ip address print\n"@), ("/ip route print"@, "/ip route print\n"@), ("/log print"@, "/log print\n"@)]
    } else if platform == "aruba"@ {
        seq![("show vlan"@, "show vlan\n"@), ("show ip route"@, "show ip route\n"@), ("show interfaces brief"@, "show interfaces brief\n"@)]
    } else if platform == "fortigate"@ {
        seq![("get system status"@, "get system status\n"@), ("get router info routing-table all"@, "get router info routing-table all\n"@), ("get vpn ipsec tunnel summary"@, "get vpn ipsec tunnel summary\n"@), ("diagnose sniffer packet any 'icmp' 4"@, "diagnose sniffer packet any 'icmp' 4\n"@), ("execute backup config flash"@, "execute backup config flash\n"@)]
    } else if platform == "fortimanager"@ {
        seq![("get system status"@, "get system status\n"@), ("diagnose dvm device list"@, "diagnose dvm device list\n"@), ("execute backup all-settings ftp"@, "execute backup all-settings ftp \n"@)]
    } else if platform == "paloalto"@ {
        seq![("show system info"@, "show system info\n"@), ("show session info"@, "show session info\n"@), ("show running resource-monitor minute"@, "show running resource-monitor minute\n"@), ("show routing route"@, "show routing route\n"@), ("commit"@, "commit\n"@)]
    } else if platform == "f5_bigip"@ {
        seq![("tmsh show sys version"@, "tmsh show sys version\n"@), ("tmsh show ltm virtual"@, "tmsh show ltm virtual\n"@), ("tmsh show net interface"@, "tmsh show net interface\n"@), ("tmsh save sys config"@, "tmsh save sys config\n"@)]
    } else if platform == "checkpoint_gaia"@ {
        seq![("show configuration"@, "show configuration\n"@), ("cphaprob state"@, "cphaprob state\n"@), ("fw stat"@, "fw stat\n"@), ("save config"@, "save config\n"@)]
    } else if platform == "hp_comware"@ {
        seq![("display current-configuration"@, "display current-configuration\n"@), ("display interface brief"@, "display interface brief\n"@), ("display ip routing-table"@, "display ip routing-table\n"@), ("save force"@, "save force\n"@)]
    } else if platform == "brocade_fos"@ {
        seq![("switchshow"@, "switchshow\n"@), ("cfgshow"@, "cfgshow\n"@), ("nsshow"@, "nsshow\n"@), ("portshow"@, "portshow\n"@)]
    } else {
        Seq::empty()
    }
}

/// The views of `(name, content)` pairs.
pub open spec fn pair_strs(v: Seq<(&'static str, &'static str)>) -> Seq<(Seq<char>, Seq<char>)> {
    Seq::new(v.len(), |i: int| (v[i].0@, v[i].1@))
}

/// The curated default snippets of `platform` (none for an unknown one).
pub fn default_snippets_for(platform: &str) -> (r: Vec<(&'static str, &'static str)>)
    ensures
        pair_strs(r@) == default_snippets(platform@),
{
    let r: Vec<(&'static str, &'static str)> = if crate::text::str_is(platform, "linux") {
        vec![("ls -la", "ls -la\n"), ("df -h", "df -h\n"), ("free -h", "free -h\n"), ("ps aux | grep ", "ps aux | grep \n"), ("systemctl status ", "systemctl status \n"), ("journalctl -xe", "journalctl -xe\n")]
    } else if crate::text::str_is(platform, "cisco_ios") {
        vec![("show ip int brief", "show ip int brief\n"), ("show ip route", "show ip route\n"), ("show interfaces status", "show interfaces status\n"), ("show running-config", "show running-config\n"), ("clear counters", "clear counters\n"), ("wr mem", "wr mem\n")]
    } else if crate::text::str_is(platform, "juniper") {
        vec![("show interfaces terse", "show interfaces terse\n"), ("show route", "show route\n"), ("show bgp summary", "show bgp summary\n"), ("show chassis hardware", "show chassis hardware\n"), ("commit confirmed", "commit confirmed\n")]
    } else if crate::text::str_is(platform, "mikrotik") {
        vec![("/interface print", "/interface print\n"), ("/ip address print", "/ip address print\n"), ("/ip route print", "/ip route print\n"), ("/log print", "/log print\n")]
    } else if crate::text::str_is(platform, "aruba") {
        vec![("show vlan", "show vlan\n"), ("show ip route", "show ip route\n"), ("show interfaces brief", "show interfaces brief\n")]
    } else if crate::text::str_is(platform, "fortigate") {
        vec![("get system status", "get system status\n"), ("get router info routing-table all", "get router info routing-table all\n"), ("get vpn ipsec tunnel summary", "get vpn ipsec tunnel summary\n"), ("diagnose sniffer packet any 'icmp' 4", "diagnose sniffer packet any 'icmp' 4\n"), ("execute backup config flash", "execute backup config flash\n")]
    } else if crate::text::str_is(platform, "fortimanager") {
        vec![("get system status", "get system status\n"), ("diagnose dvm device list", "diagnose dvm device list\n"), ("execute backup all-settings ftp", "execute backup all-settings ftp \n")]
    } else if crate::text::str_is(platform, "paloalto") {
        vec![("show system info", "show system info\n"), ("show session info", "show session info\n"), ("show running resource-monitor minute", "show running resource-monitor minute\n"), ("show routing route", "show routing route\n"), ("commit", "commit\n")]
    } else if crate::text::str_is(platform, "f5_bigip") {
        vec![("tmsh show sys version", "tmsh show sys version\n"), ("tmsh show ltm virtual", "tmsh show ltm virtual\n"), ("tmsh show net interface", "tmsh show net interface\n"), ("tmsh save sys config", "tmsh save sys config\n")]
    } else if crate::text::str_is(platform, "checkpoint_gaia") {
        vec![("show configuration", "show configuration\n"), ("cphaprob state", "cphaprob state\n"), ("fw stat", "fw stat\n"), ("save config", "save config\n")]
    } else if crate::text::str_is(platform, "hp_comware") {
        vec![("display current-configuration", "display current-configuration\n"), ("display interface brief", "display interface brief\n"), ("display ip routing-table", "display ip routing-table\n"), ("save force", "save force\n")]
    } else if crate::text::str_is(platform, "brocade_fos") {
        vec![("switchshow", "switchshow\n"), ("cfgshow", "cfgshow\n"), ("nsshow", "nsshow\n"), ("portshow", "portshow\n")]
    } else {
        Vec::new()
    };
    assert(pair_strs(r@) =~= default_snippets(platform@));
    r
}

/// A default snippet whose content is its name followed by a line feed
/// (a space before it where the command takes an argument).
pub open spec fn snippet_ok(e: (Seq<char>, Seq<char>)) -> bool {
    e.1 == e.0 + "\n"@ || e.1 == e.0 + " \n"@
}

/// Every default snippet's content ends with a line feed: it is its name,
/// then a line feed (with a space before it for the one command that takes
/// an argument after its name).
pub proof fn lemma_default_snippet_content(platform: Seq<char>, i: int)
    requires
        0 <= i < default_snippets(platform).len(),
    ensures
        snippet_ok(default_snippets(platform)[i]),
{
    reveal_strlit("\n");
    let t1: Seq<(Seq<char>, Seq<char>)> = seq![("ls -la"@, "ls -la\n"@), ("df -h"@, "df -h\n"@), ("free -h"@, "free -h\n"@), ("ps aux | grep "@, "ps aux | grep \n"@), ("systemctl status "@, "systemctl status \n"@), ("journalctl -xe"@, "journalctl -xe\n"@)];
    assert forall|j: int| 0 <= j < 6 implies snippet_ok(#[trigger] t1[j]) by {
        if j == 0 {
            reveal_strlit("ls -la");
            reveal_strlit("ls -la\n");
            assert("ls -la\n"@ =~= "ls -la"@ + "\n"@);
        }
        if j == 1 {
            reveal_strlit("df -h");
            reveal_strlit("df -h\n");
            assert("df -h\n"@ =~= "df -h"@ + "\n"@);
        }
        if j == 2 {
            reveal_strlit("free -h");
            reveal_strlit("free -h\n");
            assert("free -h\n"@ =~= "free -h"@ + "\n"@);
        }
        if j == 3 {
            reveal_strlit("ps aux | grep ");
            reveal_strlit("ps aux | grep \n");
            assert("ps aux | grep \n"@ =~= "ps aux | grep "@ + "\n"@);
        }
        if j == 4 {
            reveal_strlit("systemctl status ");
            reveal_strlit("systemctl status \n");
            assert("systemctl status \n"@ =~= "systemctl status "@ + "\n"@);
        }
        if j == 5 {
            reveal_strlit("journalctl -xe");
            reveal_strlit("journalctl -xe\n");
            assert("journalctl -xe\n"@ =~= "journalctl -xe"@ + "\n"@);
        }
    }
    let t2: Seq<(Seq<char>, Seq<char>)> = seq![("show ip int brief"@, "show ip int brief\n"@), ("show ip route"@, "show ip route\n"@), ("show interfaces status"@, "show interfaces status\n"@), ("show running-config"@, "show running-config\n"@), ("clear counters"@, "clear counters\n"@), ("wr mem"@, "wr mem\n"@)];
    assert forall|j: int| 0 <= j < 6 implies snippet_ok(#[trigger] t2[j]) by {
        if j == 0 {
            reveal_strlit("show ip int brief");
            reveal_strlit("show ip int brief\n");
            assert("show ip int brief\n"@ =~= "show ip int brief"@ + "\n"@);
        }
        if j == 1 {
            reveal_strlit("show ip route");
            reveal_strlit("show ip route\n");
            assert("show ip route\n"@ =~= "show ip route"@ + "\n"@);
        }
        if j == 2 {
            reveal_strlit("show interfaces status");
            reveal_strlit("show interfaces status\n");
            assert("show interfaces status\n"@ =~= "show interfaces status"@ + "\n"@);
        }
        if j == 3 {
            reveal_strlit("show running-config");
            reveal_strlit("show running-config\n");
            assert("show running-config\n"@ =~= "show running-config"@ + "\n"@);
        }
        if j == 4 {
            reveal_strlit("clear counters");
            reveal_strlit("clear counters\n");
            assert("clear counters\n"@ =~= "clear counters"@ + "\n"@);
        }
        if j == 5 {
            reveal_strlit("wr mem");
            reveal_strlit("wr mem\n");
            assert("wr mem\n"@ =~= "wr mem"@ + "\n"@);
        }
    }
    let t3: Seq<(Seq<char>, Seq<char>)> = seq![("show interfaces terse"@, "show interfaces terse\n"@), ("show route"@, "show route\n"@), ("show bgp summary"@, "show bgp summary\n"@), ("show chassis hardware"@, "show chassis hardware\n"@), ("commit confirmed"@, "commit confirmed\n"@)];
    assert forall|j: int| 0 <= j < 5 implies snippet_ok(#[trigger] t3[j]) by {
        if j == 0 {
            reveal_strlit("show interfaces terse");
            reveal_strlit("show interfaces terse\n");
            assert("show interfaces terse\n"@ =~= "show interfaces terse"@ + "\n"@);
        }
        if j == 1 {
            reveal_strlit("show route");
            reveal_strlit("show route\n");
            assert("show route\n"@ =~= "show route"@ + "\n"@);
        }
        if j == 2 {
            reveal_strlit("show bgp summary");
            reveal_strlit("show bgp summary\n");
            assert("show bgp summary\n"@ =~= "show bgp summary"@ + "\n"@);
        }
        if j == 3 {
            reveal_strlit("show chassis hardware");
            reveal_strlit("show chassis hardware\n");
            assert("show chassis hardware\n"@ =~= "show chassis hardware"@ + "\n"@);
        }
        if j == 4 {
            reveal_strlit("commit confirmed");
            reveal_strlit("commit confirmed\n");
            assert("commit confirmed\n"@ =~= "commit confirmed"@ + "\n"@);
        }
    }
    let t4: Seq<(Seq<char>, Seq<char>)> = seq![("/interface print"@, "/interface print\n"@), ("/ip address print"@, "/ip address print\n"@), ("/ip route print"@, "/ip route print\n"@), ("/log print"@, "/log print\n"@)];
    assert forall|j: int| 0 <= j < 4 implies snippet_ok(#[trigger] t4[j]) by {
        if j == 0 {
            reveal_strlit("/interface print");
            reveal_strlit("/interface print\n");
            assert("/interface print\n"@ =~= "/interface print"@ + "\n"@);
        }
        if j == 1 {
            reveal_strlit("/ip address print");
            reveal_strlit("/ip address print\n");
            assert("/ip address print\n"@ =~= "/ip address print"@ + "\n"@);
        }
        if j == 2 {
            reveal_strlit("/ip route print");
            reveal_strlit("/ip route print\n");
            assert("/ip route print\n"@ =~= "/ip route print"@ + "\n"@);
        }
        if j == 3 {
            reveal_strlit("/log print");
            reveal_strlit("/log print\n");
            assert("/log print\n"@ =~= "/log print"@ + "\n"@);
        }
    }
    let t5: Seq<(Seq<char>, Seq<char>)> = seq![("show vlan"@, "show vlan\n"@), ("show ip route"@, "show ip route\n"@), ("show interfaces brief"@, "show interfaces brief\n"@)];
    assert forall|j: int| 0 <= j < 3 implies snippet_ok(#[trigger] t5[j]) by {
        if j == 0 {
            reveal_strlit("show vlan");
            reveal_strlit("show vlan\n");
            assert("show vlan\n"@ =~= "show vlan"@ + "\n"@);
        }
        if j == 1 {
            reveal_strlit("show ip route");
            reveal_strlit("show ip route\n");
            assert("show ip route\n"@ =~= "show ip route"@ + "\n"@);
        }
        if j == 2 {
            reveal_strlit("show interfaces brief");
            reveal_strlit("show interfaces brief\n");
            assert("show interfaces brief\n"@ =~= "show interfaces brief"@ + "\n"@);
        }
    }
    let t6: Seq<(Seq<char>, Seq<char>)> = seq![("get system status"@, "get system status\n"@), ("get router info routing-table all"@, "get router info routing-table all\n"@), ("get vpn ipsec tunnel summary"@, "get vpn ipsec tunnel summary\n"@), ("diagnose sniffer packet any 'icmp' 4"@, "diagnose sniffer packet any 'icmp' 4\n"@), ("execute backup config flash"@, "execute backup config flash\n"@)];
    assert forall|j: int| 0 <= j < 5 implies snippet_ok(#[trigger] t6[j]) by {
        if j == 0 {
            reveal_strlit("get system status");
            reveal_strlit("get system status\n");
            assert("get system status\n"@ =~= "get system status"@ + "\n"@);
        }
        if j == 1 {
            reveal_strlit("get router info routing-table all");
            reveal_strlit("get router info routing-table all\n");
            assert("get router info routing-table all\n"@ =~= "get router info routing-table all"@ + "\n"@);
        }
        if j == 2 {
            reveal_strlit("get vpn ipsec tunnel summary");
            reveal_strlit("get vpn ipsec tunnel summary\n");
            assert("get vpn ipsec tunnel summary\n"@ =~= "get vpn ipsec tunnel summary"@ + "\n"@);
        }
        if j == 3 {
            reveal_strlit("diagnose sniffer packet any 'icmp' 4");
            reveal_strlit("diagnose sniffer packet any 'icmp' 4\n");
            assert("diagnose sniffer packet any 'icmp' 4\n"@ =~= "diagnose sniffer packet any 'icmp' 4"@ + "\n"@);
        }
        if j == 4 {
            reveal_strlit("execute backup config flash");
            reveal_strlit("execute backup config flash\n");
            assert("execute backup config flash\n"@ =~= "execute backup config flash"@ + "\n"@);
        }
    }
    let t7: Seq<(Seq<char>, Seq<char>)> = seq![("get system status"@, "get system status\n"@), ("diagnose dvm device list"@, "diagnose dvm device list\n"@), ("execute backup all-settings ftp"@, "execute backup all-settings ftp \n"@)];
    assert forall|j: int| 0 <= j < 3 implies snippet_ok(#[trigger] t7[j]) by {
        if j == 0 {
            reveal_strlit("get system status");
            reveal_strlit("get system status\n");
            assert("get system status\n"@ =~= "get system status"@ + "\n"@);
        }
        if j == 1 {
            reveal_strlit("diagnose dvm device list");
            reveal_strlit("diagnose dvm device list\n");
            assert("diagnose dvm device list\n"@ =~= "diagnose dvm device list"@ + "\n"@);
        }
        if j == 2 {
            reveal_strlit("execute backup all-settings ftp");
            reveal_strlit("execute backup all-settings ftp \n");
            reveal_strlit(" \n");
            reveal_strlit(" ");
            assert("execute backup all-settings ftp \n"@ =~= "execute backup all-settings ftp"@ + " \n"@);
        }
    }
    let t8: Seq<(Seq<char>, Seq<char>)> = seq![("show system info"@, "show system info\n"@), ("show session info"@, "show session info\n"@), ("show running resource-monitor minute"@, "show running resource-monitor minute\n"@), ("show routing route"@, "show routing route\n"@), ("commit"@, "commit\n"@)];
    assert forall|j: int| 0 <= j < 5 implies snippet_ok(#[trigger] t8[j]) by {
        if j == 0 {
            reveal_strlit("show system info");
            reveal_strlit("show system info\n");
            assert("show system info\n"@ =~= "show system info"@ + "\n"@);
        }
        if j == 1 {
            reveal_strlit("show session info");
            reveal_strlit("show session info\n");
            assert("show session info\n"@ =~= "show session info"@ + "\n"@);
        }
        if j == 2 {
            reveal_strlit("show running resource-monitor minute");
            reveal_strlit("show running resource-monitor minute\n");
            assert("show running resource-monitor minute\n"@ =~= "show running resource-monitor minute"@ + "\n"@);
        }
        if j == 3 {
            reveal_strlit("show routing route");
            reveal_strlit("show routing route\n");
            assert("show routing route\n"@ =~= "show routing route"@ + "\n"@);
        }
        if j == 4 {
            reveal_strlit("commit");
            reveal_strlit("commit\n");
            assert("commit\n"@ =~= "commit"@ + "\n"@);
        }
    }
    let t9: Seq<(Seq<char>, Seq<char>)> = seq![("tmsh show sys version"@, "tmsh show sys version\n"@), ("tmsh show ltm virtual"@, "tmsh show ltm virtual\n"@), ("tmsh show net interface"@, "tmsh show net interface\n"@), ("tmsh save sys config"@, "tmsh save sys config\n"@)];
    assert forall|j: int| 0 <= j < 4 implies snippet_ok(#[trigger] t9[j]) by {
        if j == 0 {
            reveal_strlit("tmsh show sys version");
            reveal_strlit("tmsh show sys version\n");
            assert("tmsh show sys version\n"@ =~= "tmsh show sys version"@ + "\n"@);
        }
        if j == 1 {
            reveal_strlit("tmsh show ltm virtual");
            reveal_strlit("tmsh show ltm virtual\n");
            assert("tmsh show ltm virtual\n"@ =~= "tmsh show ltm virtual"@ + "\n"@);
        }
        if j == 2 {
            reveal_strlit("tmsh show net interface");
            reveal_strlit("tmsh show net interface\n");
            assert("tmsh show net interface\n"@ =~= "tmsh show net interface"@ + "\n"@);
        }
        if j == 3 {
            reveal_strlit("tmsh save sys config");
            reveal_strlit("tmsh save sys config\n");
            assert("tmsh save sys config\n"@ =~= "tmsh save sys config"@ + "\n"@);
        }
    }
    let t10: Seq<(Seq<char>, Seq<char>)> = seq![("show configuration"@, "show configuration\n"@), ("cphaprob state"@, "cphaprob state\n"@), ("fw stat"@, "fw stat\n"@), ("save config"@, "save config\n"@)];
    assert forall|j: int| 0 <= j < 4 implies snippet_ok(#[trigger] t10[j]) by {
        if j == 0 {
            reveal_strlit("show configuration");
            reveal_strlit("show configuration\n");
            assert("show configuration\n"@ =~= "show configuration"@ + "\n"@);
        }
        if j == 1 {
            reveal_strlit("cphaprob state");
            reveal_strlit("cphaprob state\n");
            assert("cphaprob state\n"@ =~= "cphaprob state"@ + "\n"@);
        }
        if j == 2 {
            reveal_strlit("fw stat");
            reveal_strlit("fw stat\n");
            assert("fw stat\n"@ =~= "fw stat"@ + "\n"@);
        }
        if j == 3 {
            reveal_strlit("save config");
            reveal_strlit("save config\n");
            assert("save config\n"@ =~= "save config"@ + "\n"@);
        }
    }
    let t11: Seq<(Seq<char>, Seq<char>)> = seq![("display current-configuration"@, "display current-configuration\n"@), ("display interface brief"@, "display interface brief\n"@), ("display ip routing-table"@, "display ip routing-table\n"@), ("save force"@, "save force\n"@)];
    assert forall|j: int| 0 <= j < 4 implies snippet_ok(#[trigger] t11[j]) by {
        if j == 0 {
            reveal_strlit("display current-configuration");
            reveal_strlit("display current-configuration\n");
            assert("display current-configuration\n"@ =~= "display current-configuration"@ + "\n"@);
        }
        if j == 1 {
            reveal_strlit("display interface brief");
            reveal_strlit("display interface brief\n");
            assert("display interface brief\n"@ =~= "display interface brief"@ + "\n"@);
        }
        if j == 2 {
            reveal_strlit("display ip routing-table");
            reveal_strlit("display ip routing-table\n");
            assert("display ip routing-table\n"@ =~= "display ip routing-table"@ + "\n"@);
        }
        if j == 3 {
            reveal_strlit("save force");
            reveal_strlit("save force\n");
            assert("save force\n"@ =~= "save force"@ + "\n"@);
        }
    }
    let t12: Seq<(Seq<char>, Seq<char>)> = seq![("switchshow"@, "switchshow\n"@), ("cfgshow"@, "cfgshow\n"@), ("nsshow"@, "nsshow\n"@), ("portshow"@, "portshow\n"@)];
    assert forall|j: int| 0 <= j < 4 implies snippet_ok(#[trigger] t12[j]) by {
        if j == 0 {
            reveal_strlit("switchshow");
            reveal_strlit("switchshow\n");
            assert("switchshow\n"@ =~= "switchshow"@ + "\n"@);
        }
        if j == 1 {
            reveal_strlit("cfgshow");
            reveal_strlit("cfgshow\n");
            assert("cfgshow\n"@ =~= "cfgshow"@ + "\n"@);
        }
        if j == 2 {
            reveal_strlit("nsshow");
            reveal_strlit("nsshow\n");
            assert("nsshow\n"@ =~= "nsshow"@ + "\n"@);
        }
        if j == 3 {
            reveal_strlit("portshow");
            reveal_strlit("portshow\n");
            assert("portshow\n"@ =~= "portshow"@ + "\n"@);
        }
    }
}

/// Whether the defaults are seeded: a recognised platform (not empty, not
/// `generic`) with no snippets yet.
pub fn should_seed_defaults(platform: &str, already: bool) -> (b: bool)
    ensures
        b == (platform@.len() > 0 && platform@ != "generic"@ && !already),
{
    crate::text::to_chars(platform).len() > 0 && !crate::text::str_is(platform, "generic") && !already
}

/// Macro export schema version; an import refuses newer files.
pub const MACRO_EXPORT_VERSION: u32 = 1;

/// Whether `name` is among `names`.
pub open spec fn name_taken(names: Seq<Seq<char>>, name: Seq<char>) -> bool {
    names.contains(name)
}

/// The macros of `file` an import creates (indices, in order) and the
/// summary: a macro whose name is taken is skipped. Files of a newer
/// version are refused.
pub fn macro_import_plan(existing: &Vec<String>, file: &MacroExportFile) -> (r: Result<(Vec<usize>, MacroImportSummary), AppError>)
    ensures
        r is Ok == (file.zapx_macro_export <= MACRO_EXPORT_VERSION),
        r matches Ok((add, s)) ==> {
            &&& forall|k: int| 0 <= k < add@.len() ==> (#[trigger] add@[k]) < file.macros@.len()
            &&& forall|k: int, j: int| 0 <= k < j < add@.len() ==> add@[k] < add@[j]
            &&& forall|i: int|
                0 <= i < file.macros@.len() ==> (add@.contains(i as usize) <==> !name_taken(
                    crate::model::str_views(existing@),
                    #[trigger] file.macros@[i].name@,
                ))
            &&& s.added == add@.len()
            &&& s.added + s.skipped == file.macros@.len()
        },
{
    if file.zapx_macro_export > MACRO_EXPORT_VERSION {
        let mut m = owned("file is from a newer macro export version (v");
        let d = crate::importers::common::u32_decimal(file.zapx_macro_export);
        push_str(&mut m, d.as_str());
        push_str(&mut m, ", supported v1)");
        return Err(AppError::Internal(m));
    }
    let ghost names = crate::model::str_views(existing@);
    let mut add: Vec<usize> = Vec::new();
    let mut skipped: usize = 0;
    let mut i: usize = 0;
    while i < file.macros.len()
        invariant
            i <= file.macros@.len(),
            names == crate::model::str_views(existing@),
            add@.len() + skipped == i,
            forall|k: int| 0 <= k < add@.len() ==> (#[trigger] add@[k]) < i,
            forall|k: int, j: int| 0 <= k < j < add@.len() ==> add@[k] < add@[j],
            forall|m: int|
                0 <= m < i ==> (add@.contains(m as usize) <==> !name_taken(names, #[trigger] file.macros@[m].name@)),
        decreases file.macros.len() - i,
    {
        let nc = crate::text::to_chars(file.macros[i].name.as_str());
        let mut taken = false;
        let mut j: usize = 0;
        while j < existing.len()
            invariant
                j <= existing@.len(),
                names == crate::model::str_views(existing@),
                nc@ == file.macros@[i as int].name@,
                taken == exists|q: int| 0 <= q < j && names[q] == nc@,
            decreases existing.len() - j,
        {
            assert(names[j as int] == existing@[j as int]@);
            if crate::text::chars_eq(&crate::text::to_chars(existing[j].as_str()), &nc) {
                taken = true;
            }
            j = j + 1;
        }
        assert(taken == name_taken(names, nc@)) by {
            if taken {
                let q = choose|q: int| 0 <= q < j && names[q] == nc@;
                assert(names.contains(nc@));
            }
            if names.contains(nc@) {
                let q = choose|q: int| 0 <= q < names.len() && names[q] == nc@;
                assert(0 <= q < j);
            }
        }
        let ghost before = add@;
        if taken {
            skipped = skipped + 1;
            assert forall|m: int| 0 <= m < i + 1 implies (add@.contains(m as usize) <==> !name_taken(names, #[trigger] file.macros@[m].name@)) by {
                if m == i {
                    if add@.contains(m as usize) {
                        let k = choose|k: int| 0 <= k < add@.len() && add@[k] == m as usize;
                        assert(add@[k] < i);
                    }
                }
            }
        } else {
            add.push(i);
            assert forall|m: int| 0 <= m < i + 1 implies (add@.contains(m as usize) <==> !name_taken(names, #[trigger] file.macros@[m].name@)) by {
                if m < i {
                    if add@.contains(m as usize) {
                        let k = choose|k: int| 0 <= k < add@.len() && add@[k] == m as usize;
                        if k < before.len() {
                            assert(before[k] == m as usize);
                        }
                    }
                    if before.contains(m as usize) {
                        let k = choose|k: int| 0 <= k < before.len() && before[k] == m as usize;
                        assert(add@[k] == m as usize);
                    }
                } else {
                    assert(add@[before.len() as int] == i);
                }
            }
        }
        i = i + 1;
    }
    let n = add.len();
    Ok((add, MacroImportSummary { added: n, skipped }))
}

/// A snippet row as a macro export reads it: a snippet is a macro when it
/// has steps.
pub struct MacroRow {
    pub id: i64,
    pub name: String,
    pub color: Option<String>,
    pub folder: Option<String>,
    pub steps_json: Option<String>,
}

/// Whether a row is exported: a macro, and among `ids` when they are given.
pub open spec fn macro_selected(r: MacroRow, ids: Option<Seq<i64>>) -> bool {
    r.steps_json is Some && match ids {
        Some(v) => v.contains(r.id),
        None => true,
    }
}

/// An exported macro as (name, color, folder, steps).
pub open spec fn exported_macro_view(m: ExportedMacro) -> (Seq<char>, Option<Seq<char>>, Option<Seq<char>>, Seq<char>) {
    (m.name@, opt_str(m.color), opt_str(m.folder), m.steps_json@)
}

/// The macros exported from `rows`, in order.
pub open spec fn exported_macros(rows: Seq<MacroRow>, ids: Option<Seq<i64>>) -> Seq<
    (Seq<char>, Option<Seq<char>>, Option<Seq<char>>, Seq<char>),
> {
    rows.filter(|r: MacroRow| macro_selected(r, ids)).map_values(
        |r: MacroRow| (r.name@, opt_str(r.color), opt_str(r.folder), r.steps_json.unwrap()@),
    )
}

fn id_listed(ids: &Vec<i64>, id: i64) -> (b: bool)
    ensures
        b == ids@.contains(id),
{
    let mut k: usize = 0;
    while k < ids.len()
        invariant
            k <= ids@.len(),
            forall|q: int| 0 <= q < k ==> ids@[q] != id,
        decreases ids.len() - k,
    {
        if ids[k] == id {
            assert(ids@[k as int] == id);
            return true;
        }
        k = k + 1;
    }
    false
}

/// The macro export envelope of the current version: each macro among
/// `rows` (every one when `ids` is `None`, else those whose id is listed).
pub fn build_macro_export(rows: Vec<MacroRow>, ids: Option<&Vec<i64>>) -> (r: MacroExportFile)
    ensures
        r.zapx_macro_export == MACRO_EXPORT_VERSION,
        r.macros@.map_values(|m: ExportedMacro| exported_macro_view(m)) == exported_macros(
            rows@,
            match ids {
                Some(v) => Some(v@),
                None => None,
            },
        ),
{
    let ghost sel = match ids {
        Some(v) => Some(v@),
        None => None,
    };
    let ghost rs = rows@;
    let mut rest = rows;
    let n = rest.len();
    let mut macros: Vec<ExportedMacro> = Vec::new();
    let mut i: usize = 0;
    assert(rs.take(0) =~= Seq::<MacroRow>::empty());
    assert(rs.skip(0) =~= rs);
    proof {
        reveal(Seq::filter);
    }
    while i < n
        invariant
            n == rs.len(),
            i <= n,
            rest@ == rs.skip(i as int),
            sel == match ids {
                Some(v) => Some(v@),
                None => None::<Seq<i64>>,
            },
            macros@.map_values(|m: ExportedMacro| exported_macro_view(m)) == exported_macros(rs.take(i as int), sel),
        decreases n - i,
    {
        let r = rest.remove(0);
        assert(r == rs[i as int]);
        assert(rest@ =~= rs.skip(i + 1));
        let ghost t = rs.take(i + 1);
        assert(t.drop_last() =~= rs.take(i as int));
        assert(t.last() == r);
        proof {
            reveal(Seq::filter);
        }
        let ghost rv = r;
        let ghost pm = macros@;
        let listed = match ids {
            Some(v) => id_listed(v, r.id),
            None => true,
        };
        match r.steps_json {
            Some(steps) => {
                if listed {
                    macros.push(ExportedMacro { name: r.name, color: r.color, folder: r.folder, steps_json: steps });
                    assert(macros@.map_values(|m: ExportedMacro| exported_macro_view(m)) =~= pm.map_values(
                        |m: ExportedMacro| exported_macro_view(m),
                    ).push(exported_macro_view(macros@.last())));
                    assert(exported_macros(t, sel) =~= exported_macros(rs.take(i as int), sel).push(
                        exported_macro_view(macros@.last()),
                    ));
                }
            },
            None => {},
        }
        i = i + 1;
    }
    assert(rs.take(n as int) =~= rs);
    MacroExportFile { zapx_macro_export: MACRO_EXPORT_VERSION, macros }
}

} // verus!
