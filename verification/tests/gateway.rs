use blobstore_gateway::gateway::{plan_request, RequestPlan, DEFAULT_CHUNK_SIZE};
use blobstore_gateway::reply::{
    bad_method_reply, bool_field_reply, container_exists_reply, create_container_reply, echo_reply,
    error_reply, metadata_reply, not_implemented_reply, object_exists_reply, success_reply,
};
use blobstore_gateway::router::{route, Operation};

#[test]
fn route_resolves_known_get_operation() {
    assert!(matches!(route("GET", "/x/y/container_exists"), Operation::ContainerExists));
    assert!(matches!(route("GET", "/x/y/object_exists"), Operation::ObjectExists));
    assert!(matches!(route("GET", "/x/y/get_object_info"), Operation::GetObjectInfo));
    assert!(matches!(route("GET", "/x/y/get_container_info"), Operation::GetContainerInfo));
    assert!(matches!(route("GET", "/x/y/list_containers"), Operation::ListContainers));
    assert!(matches!(route("GET", "/x/y/list_objects"), Operation::ListObjects));
    assert!(matches!(route("GET", "/x/y/download"), Operation::Download));
    assert!(matches!(route("GET", "/x/y/async_dl"), Operation::AsyncDownload));
}

#[test]
fn route_resolves_post_and_delete_operations() {
    assert!(matches!(route("POST", "/a/create_container"), Operation::CreateContainer));
    assert!(matches!(route("POST", "/a/upload"), Operation::Upload));
    assert!(matches!(route("POST", "/a/echo"), Operation::Echo));
    assert!(matches!(route("DELETE", "/a/remove_containers"), Operation::RemoveContainers));
    assert!(matches!(route("DELETE", "/a/remove_objects"), Operation::RemoveObjects));
}

#[test]
fn route_unmatched_name_is_unknown() {
    match route("GET", "/x/y/bogus_op") {
        Operation::Unknown(name) => assert_eq!(name.as_str(), "bogus_op"),
        _ => panic!("expected Unknown"),
    }
    // A known name under the wrong method is unknown too.
    match route("GET", "/x/y/upload") {
        Operation::Unknown(name) => assert_eq!(name.as_str(), "upload"),
        _ => panic!("expected Unknown"),
    }
}

#[test]
fn route_takes_final_nonempty_segment() {
    assert!(matches!(route("GET", "/x/y/download/"), Operation::Download));
    assert!(matches!(route("GET", "download"), Operation::Download));
    match route("GET", "/") {
        Operation::Unknown(name) => assert_eq!(name.as_str(), ""),
        _ => panic!("expected Unknown"),
    }
}

#[test]
fn plan_unknown_operation_is_structured_400() {
    match plan_request("GET", "/x/y/bogus_op", "") {
        RequestPlan::Immediate(rep) => {
            assert_eq!(rep.status, 400);
            assert!(!rep.octet_stream);
            assert_eq!(
                rep.body,
                b"{\"success\":false,\"error\":\"GET operator \\\"bogus_op\\\" not implemented\"}"
            );
        }
        _ => panic!("expected an immediate reply"),
    }
}

#[test]
fn plan_unhandled_method_is_structured_400() {
    match plan_request("PATCH", "/x/y/download", "") {
        RequestPlan::Immediate(rep) => {
            assert_eq!(rep.status, 400);
            assert_eq!(rep.body, b"{\"success\":false,\"error\":\"cannot handle method\"}");
        }
        _ => panic!("expected an immediate reply"),
    }
}

#[test]
fn plan_extracts_container_and_name() {
    match plan_request("GET", "/svc/download", "container=photos&name=cat.png") {
        RequestPlan::Download { container, name } => {
            assert_eq!(container.as_str(), "photos");
            assert_eq!(name.as_str(), "cat.png");
        }
        _ => panic!("expected a download plan"),
    }
}

#[test]
fn plan_missing_parameters_fall_back_to_sentinels() {
    match plan_request("GET", "/svc/download", "") {
        RequestPlan::Download { container, name } => {
            assert_eq!(container.as_str(), "container");
            assert_eq!(name.as_str(), "file.txt");
        }
        _ => panic!("expected a download plan"),
    }
}

#[test]
fn plan_upload_reads_chunk_size() {
    match plan_request("POST", "/svc/upload", "container=c&name=f&chunk_size=50") {
        RequestPlan::Upload { container, name, chunk_size } => {
            assert_eq!(container.as_str(), "c");
            assert_eq!(name.as_str(), "f");
            assert_eq!(chunk_size, 50);
        }
        _ => panic!("expected an upload plan"),
    }
}

#[test]
fn plan_bad_chunk_size_uses_default() {
    match plan_request("POST", "/svc/upload", "chunk_size=0") {
        RequestPlan::Upload { chunk_size, .. } => assert_eq!(chunk_size, DEFAULT_CHUNK_SIZE),
        _ => panic!("expected an upload plan"),
    }
    match plan_request("POST", "/svc/upload", "chunk_size=huge") {
        RequestPlan::Upload { chunk_size, .. } => assert_eq!(chunk_size, DEFAULT_CHUNK_SIZE),
        _ => panic!("expected an upload plan"),
    }
    match plan_request("POST", "/svc/upload", "") {
        RequestPlan::Upload { chunk_size, .. } => assert_eq!(chunk_size, DEFAULT_CHUNK_SIZE),
        _ => panic!("expected an upload plan"),
    }
}

#[test]
fn plan_batch_removals_collect_repeated_parameters() {
    match plan_request("DELETE", "/svc/remove_containers", "container1=a&container2=b") {
        RequestPlan::RemoveContainers { containers } => {
            assert_eq!(containers.len(), 2);
            assert_eq!(containers[0].as_str(), "a");
            assert_eq!(containers[1].as_str(), "b");
        }
        _ => panic!("expected a batch container removal"),
    }
    match plan_request("DELETE", "/svc/remove_objects", "container=c&name1=x&name2=y") {
        RequestPlan::RemoveObjects { container, names } => {
            assert_eq!(container.as_str(), "c");
            assert_eq!(names.len(), 2);
            assert_eq!(names[0].as_str(), "x");
            assert_eq!(names[1].as_str(), "y");
        }
        _ => panic!("expected a batch object removal"),
    }
}

#[test]
fn plan_routes_echo_and_listings() {
    assert!(matches!(plan_request("POST", "/svc/echo", ""), RequestPlan::Echo));
    assert!(matches!(plan_request("GET", "/svc/list_containers", ""), RequestPlan::ListContainers));
    match plan_request("GET", "/svc/list_objects", "container=c") {
        RequestPlan::ListObjects { container } => assert_eq!(container.as_str(), "c"),
        _ => panic!("expected a listing plan"),
    }
    match plan_request("GET", "/svc/async_dl", "container=c&name=f") {
        RequestPlan::AsyncDownload { container, name } => {
            assert_eq!(container.as_str(), "c");
            assert_eq!(name.as_str(), "f");
        }
        _ => panic!("expected an async download plan"),
    }
}

#[test]
fn success_envelope_is_exact() {
    let rep = success_reply();
    assert_eq!(rep.status, 200);
    assert!(!rep.octet_stream);
    assert_eq!(rep.body, b"{\"success\":true}");
}

#[test]
fn error_envelope_quotes_the_message() {
    let rep = error_reply("boom");
    assert_eq!(rep.status, 400);
    assert_eq!(rep.body, b"{\"success\":false,\"error\":\"boom\"}");
}

#[test]
fn error_envelope_escapes_special_characters() {
    // A message holding a quote and a backslash must come out JSON-escaped;
    // an unescaped copy of the input would make this fail.
    let rep = error_reply("a\"b\\c");
    assert_eq!(rep.body, b"{\"success\":false,\"error\":\"a\\\"b\\\\c\"}");
}

#[test]
fn exists_replies_carry_their_field() {
    let rep = container_exists_reply(Ok(true));
    assert_eq!(rep.status, 200);
    assert_eq!(rep.body, b"{\"success\":true,\"container_exists\":true}");

    let rep = object_exists_reply(Ok(false));
    assert_eq!(rep.status, 200);
    assert_eq!(rep.body, b"{\"success\":true,\"object_exists\":false}");

    let rep = container_exists_reply(Err("offline".to_string()));
    assert_eq!(rep.status, 400);
    assert_eq!(rep.body, b"{\"success\":false,\"error\":\"offline\"}");

    let rep = bool_field_reply("object_exists", true);
    assert_eq!(rep.body, b"{\"success\":true,\"object_exists\":true}");
}

#[test]
fn create_container_reply_wraps_both_outcomes() {
    let rep = create_container_reply(Ok(()));
    assert_eq!(rep.status, 200);
    assert_eq!(rep.body, b"{\"success\":true}");

    let rep = create_container_reply(Err("denied".to_string()));
    assert_eq!(rep.status, 400);
    assert_eq!(rep.body, b"{\"success\":false,\"error\":\"denied\"}");
}

#[test]
fn metadata_reply_forwards_payload() {
    let rep = metadata_reply(Ok(b"{\"objectName\":\"f\"}".to_vec()));
    assert_eq!(rep.status, 200);
    assert!(!rep.octet_stream);
    assert_eq!(rep.body, b"{\"objectName\":\"f\"}");

    let rep = metadata_reply(Err("no such object".to_string()));
    assert_eq!(rep.status, 400);
    assert_eq!(rep.body, b"{\"success\":false,\"error\":\"no such object\"}");
}

#[test]
fn echo_reply_hands_the_body_back() {
    let rep = echo_reply(vec![1, 2, 3]);
    assert_eq!(rep.status, 200);
    assert_eq!(rep.body, vec![1, 2, 3]);
}

#[test]
fn not_implemented_reply_names_the_operation() {
    let rep = not_implemented_reply("DELETE", "drop_all");
    assert_eq!(rep.status, 400);
    assert_eq!(
        rep.body,
        b"{\"success\":false,\"error\":\"DELETE operator \\\"drop_all\\\" not implemented\"}"
    );
    let rep = bad_method_reply();
    assert_eq!(rep.status, 400);
    assert_eq!(rep.body, b"{\"success\":false,\"error\":\"cannot handle method\"}");
}
