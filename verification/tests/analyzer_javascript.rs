use codesort::analyzer::Analyzer;
use codesort::analyzers::javascript::JavascriptAnalyzer;

#[test]
fn test_balance_javascript() {
    let code = r#"
        // called by the server or (most often) in case of any action on a message
        //  (so this is very frequently called on non pings)
        notif.removePing = function(mid, forwardToServer, flash){
            if (!mid) return;
            // we assume here there's at most one notification to a given message
            for (var i=0; i<notifications.length; i++) {
                if (notifications[i].mid==mid) {
                    if (flash) {
                        var $md = $('#messages .message[mid='+mid+']');
                        if ($md.length) {
                            md.goToMessageDiv($md);
                        }
                    }
                    if (forwardToServer) ws.emit("rm_ping", mid);
                    notifications.splice(i, 1);
                    notif.updatePingsList();
                    return;
                }
            }
        }
    "#;
    let analyzer = JavascriptAnalyzer;
    let list = analyzer.read_str(code).unwrap();
    assert!(list.is_complete());
}
