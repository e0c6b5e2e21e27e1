//! Well-known service names for ports, and the aliases used when searching.
use vstd::prelude::*;
use crate::model::Proto;

verus! {

/// Display name and search aliases of a well-known service.
pub ghost struct ServiceMeta {
    pub name: &'static str,
    pub aliases: Seq<&'static str>,
}

/// The table of well-known services: the display name (empty where the port
/// is shared by several common services) and the lowercase search aliases.
pub open spec fn service_meta(proto: Proto, port: u16) -> Option<ServiceMeta> {
    match (proto, port) {
        (Proto::Tcp, 20) => Some(ServiceMeta { name: "ftp-data", aliases: seq!["ftp-data"] }),
        (Proto::Tcp, 21) => Some(ServiceMeta { name: "ftp", aliases: seq!["ftp"] }),
        (Proto::Tcp | Proto::Udp, 22) => Some(ServiceMeta { name: "ssh", aliases: seq!["ssh"] }),
        (Proto::Tcp, 23) => Some(ServiceMeta { name: "telnet", aliases: seq!["telnet"] }),
        (Proto::Tcp, 25) => Some(ServiceMeta { name: "smtp", aliases: seq!["smtp"] }),
        (Proto::Tcp | Proto::Udp, 53) => Some(ServiceMeta { name: "dns", aliases: seq!["dns", "domain"] }),
        (Proto::Udp, 67) => Some(ServiceMeta { name: "dhcp", aliases: seq!["dhcp", "bootps"] }),
        (Proto::Udp, 68) => Some(ServiceMeta { name: "dhcp-client", aliases: seq!["dhcp-client", "bootpc"] }),
        (Proto::Udp, 69) => Some(ServiceMeta { name: "tftp", aliases: seq!["tftp"] }),
        (Proto::Tcp, 80) => Some(ServiceMeta { name: "http", aliases: seq!["http"] }),
        (Proto::Tcp | Proto::Udp, 88) => Some(ServiceMeta { name: "kerberos", aliases: seq!["kerberos"] }),
        (Proto::Tcp, 110) => Some(ServiceMeta { name: "pop3", aliases: seq!["pop3"] }),
        (Proto::Tcp | Proto::Udp, 111) => Some(ServiceMeta { name: "rpcbind", aliases: seq!["rpcbind", "sunrpc"] }),
        (Proto::Tcp, 119) => Some(ServiceMeta { name: "nntp", aliases: seq!["nntp"] }),
        (Proto::Udp, 123) => Some(ServiceMeta { name: "ntp", aliases: seq!["ntp"] }),
        (Proto::Tcp | Proto::Udp, 135) => Some(ServiceMeta { name: "msrpc", aliases: seq!["msrpc"] }),
        (Proto::Udp, 137) => Some(ServiceMeta { name: "netbios-ns", aliases: seq!["netbios-ns"] }),
        (Proto::Udp, 138) => Some(ServiceMeta { name: "netbios-dgm", aliases: seq!["netbios-dgm"] }),
        (Proto::Tcp, 139) => Some(ServiceMeta { name: "netbios-ssn", aliases: seq!["netbios-ssn"] }),
        (Proto::Tcp, 143) => Some(ServiceMeta { name: "imap", aliases: seq!["imap"] }),
        (Proto::Udp, 161) => Some(ServiceMeta { name: "snmp", aliases: seq!["snmp"] }),
        (Proto::Udp, 162) => Some(ServiceMeta { name: "snmptrap", aliases: seq!["snmptrap"] }),
        (Proto::Tcp, 179) => Some(ServiceMeta { name: "bgp", aliases: seq!["bgp"] }),
        (Proto::Tcp, 389) => Some(ServiceMeta { name: "ldap", aliases: seq!["ldap"] }),
        (Proto::Tcp, 443) => Some(ServiceMeta { name: "https", aliases: seq!["https"] }),
        (Proto::Tcp, 445) => Some(ServiceMeta { name: "smb", aliases: seq!["smb", "microsoft-ds"] }),
        (Proto::Tcp, 465) => Some(ServiceMeta { name: "smtps", aliases: seq!["smtps"] }),
        (Proto::Udp, 500) => Some(ServiceMeta { name: "isakmp", aliases: seq!["isakmp"] }),
        (Proto::Udp, 514) => Some(ServiceMeta { name: "syslog", aliases: seq!["syslog"] }),
        (Proto::Tcp, 515) => Some(ServiceMeta { name: "lpd", aliases: seq!["lpd"] }),
        (Proto::Tcp, 548) => Some(ServiceMeta { name: "afp", aliases: seq!["afp"] }),
        (Proto::Tcp, 587) => Some(ServiceMeta { name: "submission", aliases: seq!["submission", "smtp"] }),
        (Proto::Tcp, 631) => Some(ServiceMeta { name: "ipp", aliases: seq!["ipp", "cups"] }),
        (Proto::Tcp, 636) => Some(ServiceMeta { name: "ldaps", aliases: seq!["ldaps"] }),
        (Proto::Tcp, 993) => Some(ServiceMeta { name: "imaps", aliases: seq!["imaps"] }),
        (Proto::Tcp, 995) => Some(ServiceMeta { name: "pop3s", aliases: seq!["pop3s"] }),
        (Proto::Udp, 5353) => Some(ServiceMeta { name: "mdns", aliases: seq!["mdns"] }),
        (Proto::Tcp, 5432) => Some(ServiceMeta { name: "postgres", aliases: seq!["postgres", "postgresql"] }),
        (Proto::Tcp, 3306) => Some(ServiceMeta { name: "mysql", aliases: seq!["mysql"] }),
        (Proto::Tcp, 1433) => Some(ServiceMeta { name: "mssql", aliases: seq!["mssql"] }),
        (Proto::Tcp, 1521) => Some(ServiceMeta { name: "oracle", aliases: seq!["oracle"] }),
        (Proto::Tcp, 2049) => Some(ServiceMeta { name: "nfs", aliases: seq!["nfs"] }),
        (Proto::Tcp, 2379) => Some(ServiceMeta { name: "etcd", aliases: seq!["etcd"] }),
        (Proto::Tcp, 2380) => Some(ServiceMeta { name: "etcd-peer", aliases: seq!["etcd-peer"] }),
        (Proto::Tcp, 3389) => Some(ServiceMeta { name: "rdp", aliases: seq!["rdp"] }),
        (Proto::Tcp, 5672) => Some(ServiceMeta { name: "amqp", aliases: seq!["amqp"] }),
        (Proto::Tcp, 5900) => Some(ServiceMeta { name: "vnc", aliases: seq!["vnc"] }),
        (Proto::Tcp, 6379) => Some(ServiceMeta { name: "redis", aliases: seq!["redis"] }),
        (Proto::Tcp, 8080) => Some(ServiceMeta { name: "http", aliases: seq!["http", "http-alt"] }),
        (Proto::Tcp, 8008) => Some(ServiceMeta { name: "http", aliases: seq!["http"] }),
        (Proto::Tcp, 8443) => Some(ServiceMeta { name: "https", aliases: seq!["https"] }),
        (Proto::Tcp, 9200) => Some(ServiceMeta { name: "elasticsearch", aliases: seq!["elasticsearch"] }),
        (Proto::Tcp, 11211) => Some(ServiceMeta { name: "memcached", aliases: seq!["memcached"] }),
        (Proto::Tcp, 27017) => Some(ServiceMeta { name: "mongodb", aliases: seq!["mongodb", "mongo"] }),
        (Proto::Tcp, 27018) => Some(ServiceMeta { name: "mongodb", aliases: seq!["mongodb"] }),
        (Proto::Tcp, 4222) => Some(ServiceMeta { name: "nats", aliases: seq!["nats"] }),
        (Proto::Tcp, 2375) => Some(ServiceMeta { name: "docker", aliases: seq!["docker"] }),
        (Proto::Tcp, 2376) => Some(ServiceMeta { name: "docker-tls", aliases: seq!["docker-tls"] }),
        (Proto::Tcp, 6443) => Some(ServiceMeta { name: "kubernetes", aliases: seq!["kubernetes", "k8s"] }),
        (Proto::Tcp, 10250) => Some(ServiceMeta { name: "kubelet", aliases: seq!["kubelet"] }),
        (Proto::Tcp, 5173 | 5174 | 24678) => Some(ServiceMeta { name: "vite", aliases: seq!["vite"] }),
        (Proto::Tcp, 9229) => Some(ServiceMeta { name: "node-inspect", aliases: seq!["node-inspect"] }),
        (Proto::Tcp, 7687) => Some(ServiceMeta { name: "neo4j", aliases: seq!["neo4j"] }),
        (Proto::Tcp, 8161) => Some(ServiceMeta { name: "activemq", aliases: seq!["activemq"] }),
        (Proto::Tcp, 9418) => Some(ServiceMeta { name: "git", aliases: seq!["git"] }),
        (Proto::Tcp, 853) => Some(ServiceMeta { name: "dot", aliases: seq!["dot", "dns-over-tls"] }),
        (Proto::Udp, 853) => Some(ServiceMeta { name: "doq", aliases: seq!["doq"] }),
        (Proto::Tcp, 8888) => Some(ServiceMeta { name: "jupyter", aliases: seq!["jupyter"] }),
        (Proto::Tcp, 4200) => Some(ServiceMeta { name: "angular", aliases: seq!["angular"] }),
        (Proto::Tcp, 3000) => Some(ServiceMeta { name: "", aliases: seq!["rails", "grafana", "node"] }),
        (Proto::Tcp, 3001) => Some(ServiceMeta { name: "", aliases: seq!["react", "node"] }),
        (Proto::Tcp, 5000) => Some(ServiceMeta { name: "", aliases: seq!["flask", "airplay"] }),
        (Proto::Tcp, 8000) => Some(ServiceMeta { name: "", aliases: seq!["django", "deno"] }),
        (Proto::Tcp, 8081) => Some(ServiceMeta { name: "", aliases: seq!["http"] }),
        (Proto::Tcp, 9090) => Some(ServiceMeta { name: "", aliases: seq!["prometheus", "cockpit"] }),
        (Proto::Tcp, 9091) => Some(ServiceMeta { name: "", aliases: seq!["prometheus"] }),
        (Proto::Tcp, 16686) => Some(ServiceMeta { name: "", aliases: seq!["jaeger"] }),
        (Proto::Tcp, 4317 | 4318) => Some(ServiceMeta { name: "", aliases: seq!["otlp"] }),
        _ => None,
    }
}

/// The display name of a service, or the empty string.
pub open spec fn service_name_of(proto: Proto, port: u16) -> &'static str {
    match service_meta(proto, port) {
        Some(m) => m.name,
        None => "",
    }
}

/// The search aliases of a service, or none.
pub open spec fn search_terms_of(proto: Proto, port: u16) -> Seq<&'static str> {
    match service_meta(proto, port) {
        Some(m) => m.aliases,
        None => seq![],
    }
}

/// The search aliases as character sequences.
pub open spec fn alias_texts(proto: Proto, port: u16) -> Seq<Seq<char>> {
    search_terms_of(proto, port).map_values(|a: &'static str| a@)
}

/// Every service with a display name lists that name first among its search
/// aliases, so a service shown by name can be searched by that name.
pub proof fn law_display_name_is_first_alias(proto: Proto, port: u16)
    ensures
        service_name_of(proto, port)@.len() > 0 ==> search_terms_of(proto, port).len() > 0
            && search_terms_of(proto, port)[0] == service_name_of(proto, port),
{
    reveal_strlit("");
}

/// A search alias: not empty, and made of ASCII characters none of which is
/// an uppercase letter, so lowercasing leaves it unchanged.
pub open spec fn lowercase_alias(a: Seq<char>) -> bool {
    &&& a.len() > 0
    &&& forall|k: int| 0 <= k < a.len() ==> (#[trigger] a[k] as u32) < 0x80 && !('A' <= a[k] <= 'Z')
}

/// Every search alias of every service is a non-empty lowercase ASCII text.
#[verifier::rlimit(100)]
pub proof fn law_aliases_are_lowercase(proto: Proto, port: u16)
    ensures
        forall|k: int|
            0 <= k < search_terms_of(proto, port).len() ==> lowercase_alias(
                #[trigger] search_terms_of(proto, port)[k]@,
            ),
{
    reveal_strlit("ftp-data");
    reveal_strlit("ftp");
    reveal_strlit("ssh");
    reveal_strlit("telnet");
    reveal_strlit("smtp");
    reveal_strlit("dns");
    reveal_strlit("domain");
    reveal_strlit("dhcp");
    reveal_strlit("bootps");
    reveal_strlit("dhcp-client");
    reveal_strlit("bootpc");
    reveal_strlit("tftp");
    reveal_strlit("http");
    reveal_strlit("kerberos");
    reveal_strlit("pop3");
    reveal_strlit("rpcbind");
    reveal_strlit("sunrpc");
    reveal_strlit("nntp");
    reveal_strlit("ntp");
    reveal_strlit("msrpc");
    reveal_strlit("netbios-ns");
    reveal_strlit("netbios-dgm");
    reveal_strlit("netbios-ssn");
    reveal_strlit("imap");
    reveal_strlit("snmp");
    reveal_strlit("snmptrap");
    reveal_strlit("bgp");
    reveal_strlit("ldap");
    reveal_strlit("https");
    reveal_strlit("smb");
    reveal_strlit("microsoft-ds");
    reveal_strlit("smtps");
    reveal_strlit("isakmp");
    reveal_strlit("syslog");
    reveal_strlit("lpd");
    reveal_strlit("afp");
    reveal_strlit("submission");
    reveal_strlit("ipp");
    reveal_strlit("cups");
    reveal_strlit("ldaps");
    reveal_strlit("imaps");
    reveal_strlit("pop3s");
    reveal_strlit("mdns");
    reveal_strlit("postgres");
    reveal_strlit("postgresql");
    reveal_strlit("mysql");
    reveal_strlit("mssql");
    reveal_strlit("oracle");
    reveal_strlit("nfs");
    reveal_strlit("etcd");
    reveal_strlit("etcd-peer");
    reveal_strlit("rdp");
    reveal_strlit("amqp");
    reveal_strlit("vnc");
    reveal_strlit("redis");
    reveal_strlit("http-alt");
    reveal_strlit("elasticsearch");
    reveal_strlit("memcached");
    reveal_strlit("mongodb");
    reveal_strlit("mongo");
    reveal_strlit("nats");
    reveal_strlit("docker");
    reveal_strlit("docker-tls");
    reveal_strlit("kubernetes");
    reveal_strlit("k8s");
    reveal_strlit("kubelet");
    reveal_strlit("vite");
    reveal_strlit("node-inspect");
    reveal_strlit("neo4j");
    reveal_strlit("activemq");
    reveal_strlit("git");
    reveal_strlit("dot");
    reveal_strlit("dns-over-tls");
    reveal_strlit("doq");
    reveal_strlit("jupyter");
    reveal_strlit("angular");
    reveal_strlit("rails");
    reveal_strlit("grafana");
    reveal_strlit("node");
    reveal_strlit("react");
    reveal_strlit("flask");
    reveal_strlit("airplay");
    reveal_strlit("django");
    reveal_strlit("deno");
    reveal_strlit("prometheus");
    reveal_strlit("cockpit");
    reveal_strlit("jaeger");
    reveal_strlit("otlp");
}

fn get_meta(proto: Proto, port: u16) -> (r: Option<(&'static str, &'static [&'static str])>)
    ensures
        match r {
            Some((n, a)) => {
                &&& service_meta(proto, port) is Some
                &&& service_meta(proto, port)->0.name == n
                &&& service_meta(proto, port)->0.aliases =~= a@
            },
            None => service_meta(proto, port) is None,
        },
{
    match (proto, port) {
        (Proto::Tcp, 20) => Some(("ftp-data", &["ftp-data"])),
        (Proto::Tcp, 21) => Some(("ftp", &["ftp"])),
        (Proto::Tcp | Proto::Udp, 22) => Some(("ssh", &["ssh"])),
        (Proto::Tcp, 23) => Some(("telnet", &["telnet"])),
        (Proto::Tcp, 25) => Some(("smtp", &["smtp"])),
        (Proto::Tcp | Proto::Udp, 53) => Some(("dns", &["dns", "domain"])),
        (Proto::Udp, 67) => Some(("dhcp", &["dhcp", "bootps"])),
        (Proto::Udp, 68) => Some(("dhcp-client", &["dhcp-client", "bootpc"])),
        (Proto::Udp, 69) => Some(("tftp", &["tftp"])),
        (Proto::Tcp, 80) => Some(("http", &["http"])),
        (Proto::Tcp | Proto::Udp, 88) => Some(("kerberos", &["kerberos"])),
        (Proto::Tcp, 110) => Some(("pop3", &["pop3"])),
        (Proto::Tcp | Proto::Udp, 111) => Some(("rpcbind", &["rpcbind", "sunrpc"])),
        (Proto::Tcp, 119) => Some(("nntp", &["nntp"])),
        (Proto::Udp, 123) => Some(("ntp", &["ntp"])),
        (Proto::Tcp | Proto::Udp, 135) => Some(("msrpc", &["msrpc"])),
        (Proto::Udp, 137) => Some(("netbios-ns", &["netbios-ns"])),
        (Proto::Udp, 138) => Some(("netbios-dgm", &["netbios-dgm"])),
        (Proto::Tcp, 139) => Some(("netbios-ssn", &["netbios-ssn"])),
        (Proto::Tcp, 143) => Some(("imap", &["imap"])),
        (Proto::Udp, 161) => Some(("snmp", &["snmp"])),
        (Proto::Udp, 162) => Some(("snmptrap", &["snmptrap"])),
        (Proto::Tcp, 179) => Some(("bgp", &["bgp"])),
        (Proto::Tcp, 389) => Some(("ldap", &["ldap"])),
        (Proto::Tcp, 443) => Some(("https", &["https"])),
        (Proto::Tcp, 445) => Some(("smb", &["smb", "microsoft-ds"])),
        (Proto::Tcp, 465) => Some(("smtps", &["smtps"])),
        (Proto::Udp, 500) => Some(("isakmp", &["isakmp"])),
        (Proto::Udp, 514) => Some(("syslog", &["syslog"])),
        (Proto::Tcp, 515) => Some(("lpd", &["lpd"])),
        (Proto::Tcp, 548) => Some(("afp", &["afp"])),
        (Proto::Tcp, 587) => Some(("submission", &["submission", "smtp"])),
        (Proto::Tcp, 631) => Some(("ipp", &["ipp", "cups"])),
        (Proto::Tcp, 636) => Some(("ldaps", &["ldaps"])),
        (Proto::Tcp, 993) => Some(("imaps", &["imaps"])),
        (Proto::Tcp, 995) => Some(("pop3s", &["pop3s"])),
        (Proto::Udp, 5353) => Some(("mdns", &["mdns"])),
        (Proto::Tcp, 5432) => Some(("postgres", &["postgres", "postgresql"])),
        (Proto::Tcp, 3306) => Some(("mysql", &["mysql"])),
        (Proto::Tcp, 1433) => Some(("mssql", &["mssql"])),
        (Proto::Tcp, 1521) => Some(("oracle", &["oracle"])),
        (Proto::Tcp, 2049) => Some(("nfs", &["nfs"])),
        (Proto::Tcp, 2379) => Some(("etcd", &["etcd"])),
        (Proto::Tcp, 2380) => Some(("etcd-peer", &["etcd-peer"])),
        (Proto::Tcp, 3389) => Some(("rdp", &["rdp"])),
        (Proto::Tcp, 5672) => Some(("amqp", &["amqp"])),
        (Proto::Tcp, 5900) => Some(("vnc", &["vnc"])),
        (Proto::Tcp, 6379) => Some(("redis", &["redis"])),
        (Proto::Tcp, 8080) => Some(("http", &["http", "http-alt"])),
        (Proto::Tcp, 8008) => Some(("http", &["http"])),
        (Proto::Tcp, 8443) => Some(("https", &["https"])),
        (Proto::Tcp, 9200) => Some(("elasticsearch", &["elasticsearch"])),
        (Proto::Tcp, 11211) => Some(("memcached", &["memcached"])),
        (Proto::Tcp, 27017) => Some(("mongodb", &["mongodb", "mongo"])),
        (Proto::Tcp, 27018) => Some(("mongodb", &["mongodb"])),
        (Proto::Tcp, 4222) => Some(("nats", &["nats"])),
        (Proto::Tcp, 2375) => Some(("docker", &["docker"])),
        (Proto::Tcp, 2376) => Some(("docker-tls", &["docker-tls"])),
        (Proto::Tcp, 6443) => Some(("kubernetes", &["kubernetes", "k8s"])),
        (Proto::Tcp, 10250) => Some(("kubelet", &["kubelet"])),
        (Proto::Tcp, 5173 | 5174 | 24678) => Some(("vite", &["vite"])),
        (Proto::Tcp, 9229) => Some(("node-inspect", &["node-inspect"])),
        (Proto::Tcp, 7687) => Some(("neo4j", &["neo4j"])),
        (Proto::Tcp, 8161) => Some(("activemq", &["activemq"])),
        (Proto::Tcp, 9418) => Some(("git", &["git"])),
        (Proto::Tcp, 853) => Some(("dot", &["dot", "dns-over-tls"])),
        (Proto::Udp, 853) => Some(("doq", &["doq"])),
        (Proto::Tcp, 8888) => Some(("jupyter", &["jupyter"])),
        (Proto::Tcp, 4200) => Some(("angular", &["angular"])),
        (Proto::Tcp, 3000) => Some(("", &["rails", "grafana", "node"])),
        (Proto::Tcp, 3001) => Some(("", &["react", "node"])),
        (Proto::Tcp, 5000) => Some(("", &["flask", "airplay"])),
        (Proto::Tcp, 8000) => Some(("", &["django", "deno"])),
        (Proto::Tcp, 8081) => Some(("", &["http"])),
        (Proto::Tcp, 9090) => Some(("", &["prometheus", "cockpit"])),
        (Proto::Tcp, 9091) => Some(("", &["prometheus"])),
        (Proto::Tcp, 16686) => Some(("", &["jaeger"])),
        (Proto::Tcp, 4317 | 4318) => Some(("", &["otlp"])),
        _ => None,
    }
}

/// Returns the primary display service name if known and unambiguous, or empty string.
pub fn service_name(proto: Proto, port: u16) -> (r: &'static str)
    ensures
        r == service_name_of(proto, port),
{
    match get_meta(proto, port) {
        Some((n, _)) => n,
        None => "",
    }
}

/// Returns lowercase aliases (including primary name) used for search filtering.
pub fn search_terms(proto: Proto, port: u16) -> (r: &'static [&'static str])
    ensures
        r@ == search_terms_of(proto, port),
{
    match get_meta(proto, port) {
        Some((_, a)) => a,
        None => &[],
    }
}

} // verus!
