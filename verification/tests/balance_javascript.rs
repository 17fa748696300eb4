use codesort::languages::javascript::check_balanced;

#[test]
fn javascript_test_balance_javascript() {
    let code = r#"
        // called by the server or (most often) in case of any action on a message
        //  (so this is very frequently called on non pings)
        notif.removePing = function(mid, forwardToServer, flash){
            if (!mid) return;
            // we assume here there's at most one notification to a given message
            for (var i=0; i<notifications.length; i++) {
                if (notifications[i].mid==mid) {
                    if (flash) {
                        var $md = $('#messages .message[mid='+mid+']');
                        if ($md.length) {
                            md.goToMessageDiv($md);
                        }
                    }
                    if (forwardToServer) ws.emit("rm_ping", mid);
                    notifications.splice(i, 1);
                    notif.updatePingsList();
                    return;
                }
            }
        }
    "#;
    let _ = check_balanced(code).unwrap();
}
