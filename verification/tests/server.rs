use std::sync::Arc;
use termsite::content::{File, SshContent};
use termsite::server::{watch_step, Server, Watch, WatchAction, WatchEvent};

#[test]
fn connections_are_numbered_from_zero() {
    let mut server = Server::new(Arc::new(SshContent::empty()), b"example.org".to_vec());
    let first = server.new_client();
    let second = server.new_client();
    assert_eq!(first.connection_id(), 0);
    assert_eq!(second.connection_id(), 1);
    assert_eq!(server.active_connections(), 2);
    assert_eq!(server.client_closed(), 1);
    assert_eq!(server.new_client().connection_id(), 2);
    assert_eq!(first.prompt(), b"@example.org:/> ".to_vec());
}

#[test]
fn open_sessions_keep_their_snapshot() {
    let mut server = Server::new(Arc::new(SshContent::empty()), b"example.org".to_vec());
    let mut old = server.new_client();
    let mut content = SshContent::empty();
    content.add_file(0, b"new.txt".to_vec(), File::from_bytes(b"new".to_vec()));
    server.replace_content(Arc::new(content));
    let mut new = server.new_client();
    assert_eq!(old.data(b"ls\r").output, b"ls\r\n@example.org:/> ".to_vec());
    assert_eq!(new.data(b"ls\r").output, b"ls\r\nnew.txt\r\n@example.org:/> ".to_vec());
}

#[test]
fn the_watch_closes_an_idle_connection() {
    let (state, action) = watch_step(Watch::AwaitingChannel, WatchEvent::ChannelOpened);
    assert_eq!((state, action), (Watch::Watching, WatchAction::ArmTimer));
    let (state, action) = watch_step(state, WatchEvent::Activity);
    assert_eq!((state, action), (Watch::Watching, WatchAction::ArmTimer));
    let (state, action) = watch_step(state, WatchEvent::Elapsed);
    assert_eq!((state, action), (Watch::Finished, WatchAction::CloseConnection));
    assert_eq!(watch_step(state, WatchEvent::Activity), (Watch::Finished, WatchAction::Stop));
}

#[test]
fn the_watch_ends_with_the_connection() {
    assert_eq!(watch_step(Watch::Watching, WatchEvent::Closed), (Watch::Finished, WatchAction::Stop));
    assert_eq!(
        watch_step(Watch::AwaitingChannel, WatchEvent::ChannelLost),
        (Watch::Finished, WatchAction::Stop)
    );
}

#[test]
fn the_watch_waits_through_what_does_not_concern_it() {
    assert_eq!(
        watch_step(Watch::AwaitingChannel, WatchEvent::Elapsed),
        (Watch::AwaitingChannel, WatchAction::Wait)
    );
    assert_eq!(
        watch_step(Watch::AwaitingChannel, WatchEvent::Activity),
        (Watch::AwaitingChannel, WatchAction::Wait)
    );
    assert_eq!(
        watch_step(Watch::Watching, WatchEvent::ChannelOpened),
        (Watch::Watching, WatchAction::Wait)
    );
}
